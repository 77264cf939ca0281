//! What holds of every outcome of feeding.

use super::{is_feeding, is_first_eater, lemma_meals_of_push, meals_of};
use crate::world::EntityType;
use vstd::prelude::*;

verus! {

/// Whether `touches` answers each question in one way only.
pub open spec fn is_decided<F: Fn(usize, usize) -> bool>(touches: F) -> bool {
    forall|food: usize, other: usize|
        !(call_ensures(touches, (food, other), true) && call_ensures(
            touches,
            (food, other),
            false,
        ))
}

/// Where `touches` answers each question in one way only, the search for the
/// eater of a food item has one outcome only.
pub proof fn lemma_first_eater_unique<F: Fn(usize, usize) -> bool>(
    kinds: Seq<EntityType>,
    touches: F,
    food: usize,
    one: Option<usize>,
    other: Option<usize>,
)
    requires
        is_decided(touches),
        is_first_eater(kinds, touches, food, one),
        is_first_eater(kinds, touches, food, other),
    ensures
        one == other,
{
    match (one, other) {
        (Some(a), Some(b)) => {
            if a < b {
                assert(call_ensures(touches, (food, a), true) && call_ensures(
                    touches,
                    (food, a),
                    false,
                ));
            } else if b < a {
                assert(call_ensures(touches, (food, b), true) && call_ensures(
                    touches,
                    (food, b),
                    false,
                ));
            }
        },
        (Some(a), None) => {
            assert(call_ensures(touches, (food, a), true) && call_ensures(
                touches,
                (food, a),
                false,
            ));
        },
        (None, Some(b)) => {
            assert(call_ensures(touches, (food, b), true) && call_ensures(
                touches,
                (food, b),
                false,
            ));
        },
        (None, None) => {},
    }
}

/// Where `touches` answers each question in one way only, feeding has one
/// outcome only: the same entities and the same answers give the same result.
pub proof fn lemma_feeding_unique<F: Fn(usize, usize) -> bool>(
    kinds: Seq<EntityType>,
    touches: F,
    eaten_by: Seq<Option<usize>>,
    meals: Seq<usize>,
    other_eaten_by: Seq<Option<usize>>,
    other_meals: Seq<usize>,
)
    requires
        kinds.len() <= usize::MAX,
        is_decided(touches),
        is_feeding(kinds, touches, eaten_by, meals),
        is_feeding(kinds, touches, other_eaten_by, other_meals),
    ensures
        eaten_by == other_eaten_by,
        meals == other_meals,
{
    assert forall|entry: int| 0 <= entry < kinds.len() implies eaten_by[entry]
        == other_eaten_by[entry] by {
        let index = entry as usize;
        assert(eaten_by[index as int] == eaten_by[entry]);
        assert(other_eaten_by[index as int] == other_eaten_by[entry]);
        if kinds[entry] is Food {
            lemma_first_eater_unique(kinds, touches, index, eaten_by[entry], other_eaten_by[entry]);
        }
    }
    assert(eaten_by =~= other_eaten_by);
    assert forall|entry: int| 0 <= entry < kinds.len() implies meals[entry] == other_meals[entry] by {
        let index = entry as usize;
        assert(meals[index as int] == meals[entry]);
        assert(other_meals[index as int] == other_meals[entry]);
    }
    assert(meals =~= other_meals);
}

/// The number of food items that were eaten.
pub open spec fn eaten_count(eaten_by: Seq<Option<usize>>) -> nat {
    eaten_by.filter(|by: Option<usize>| by is Some).len()
}

/// The meals of all entities together.
pub open spec fn total_meals(meals: Seq<usize>) -> nat
    decreases meals.len(),
{
    if meals.len() == 0 {
        0
    } else {
        total_meals(meals.drop_last()) + meals.last() as nat
    }
}

/// The meals that `eaten_by` gives to the first `count` entities together.
spec fn meals_among(eaten_by: Seq<Option<usize>>, count: nat) -> nat
    decreases count,
{
    if count == 0 {
        0
    } else {
        meals_among(eaten_by, (count - 1) as nat) + meals_of(eaten_by, (count - 1) as usize)
    }
}

proof fn lemma_meals_among_push(eaten_by: Seq<Option<usize>>, by: Option<usize>, count: nat)
    requires
        count <= usize::MAX + 1,
    ensures
        meals_among(eaten_by.push(by), count) == meals_among(eaten_by, count) + if by is Some
            && by->0 < count {
            1nat
        } else {
            0nat
        },
    decreases count,
{
    if count > 0 {
        lemma_meals_among_push(eaten_by, by, (count - 1) as nat);
        lemma_meals_of_push(eaten_by, by, (count - 1) as usize);
    }
}

proof fn lemma_meals_among_is_eaten_count(eaten_by: Seq<Option<usize>>, count: nat)
    requires
        count <= usize::MAX + 1,
        forall|index: int|
            0 <= index < eaten_by.len() && eaten_by[index] is Some ==> eaten_by[index]->0 < count,
    ensures
        meals_among(eaten_by, count) == eaten_count(eaten_by),
    decreases eaten_by.len(),
{
    reveal(Seq::filter);
    if eaten_by.len() == 0 {
        assert forall|eater: usize| meals_of(eaten_by, eater) == 0 by {}
        lemma_meals_among_none(eaten_by, count);
    } else {
        lemma_meals_among_is_eaten_count(eaten_by.drop_last(), count);
        lemma_meals_among_push(eaten_by.drop_last(), eaten_by.last(), count);
        assert(eaten_by.drop_last().push(eaten_by.last()) =~= eaten_by);
    }
}

proof fn lemma_meals_among_none(eaten_by: Seq<Option<usize>>, count: nat)
    requires
        forall|eater: usize| meals_of(eaten_by, eater) == 0,
    ensures
        meals_among(eaten_by, count) == 0,
    decreases count,
{
    if count > 0 {
        lemma_meals_among_none(eaten_by, (count - 1) as nat);
    }
}

proof fn lemma_total_meals_is_meals_among(eaten_by: Seq<Option<usize>>, meals: Seq<usize>)
    requires
        meals.len() <= usize::MAX,
        forall|index: usize|
            index < meals.len() ==> #[trigger] meals[index as int] == meals_of(eaten_by, index),
    ensures
        total_meals(meals) == meals_among(eaten_by, meals.len()),
    decreases meals.len(),
{
    if meals.len() > 0 {
        let shorter = meals.drop_last();
        assert forall|index: usize| index < shorter.len() implies #[trigger] shorter[index as int]
            == meals_of(eaten_by, index) by {
            assert(shorter[index as int] == meals[index as int]);
        }
        lemma_total_meals_is_meals_among(eaten_by, shorter);
        let last = (meals.len() - 1) as usize;
        assert(meals[last as int] == meals_of(eaten_by, last));
    }
}

/// Nothing is lost and nothing is made in feeding: the meals of all entities
/// together are as many as the food items that were eaten.
pub proof fn lemma_feeding_conserves<F: Fn(usize, usize) -> bool>(
    kinds: Seq<EntityType>,
    touches: F,
    eaten_by: Seq<Option<usize>>,
    meals: Seq<usize>,
)
    requires
        kinds.len() <= usize::MAX,
        is_feeding(kinds, touches, eaten_by, meals),
    ensures
        total_meals(meals) == eaten_count(eaten_by),
{
    assert forall|entry: int| 0 <= entry < eaten_by.len() && eaten_by[entry] is Some implies eaten_by[entry]->0
        < kinds.len() by {
        let index = entry as usize;
        assert(eaten_by[index as int] == eaten_by[entry]);
    }
    lemma_meals_among_is_eaten_count(eaten_by, kinds.len());
    lemma_total_meals_is_meals_among(eaten_by, meals);
}

} // verus!
