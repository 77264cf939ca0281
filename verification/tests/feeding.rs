use evolution::feeding::{find_eater, resolve_feeding};
use evolution::world::EntityType;

const C: EntityType = EntityType::Creature;
const F: EntityType = EntityType::Food;

#[test]
fn lone_creature_eats_food_in_reach() {
    let kinds = vec![C, F];
    let feeding = resolve_feeding(&kinds, |_, _| true);
    assert_eq!(feeding.eaten_by, vec![None, Some(0)]);
    assert_eq!(feeding.meals, vec![1, 0]);
}

#[test]
fn food_out_of_reach_stays() {
    let kinds = vec![C, F];
    let feeding = resolve_feeding(&kinds, |_, _| false);
    assert_eq!(feeding.eaten_by, vec![None, None]);
    assert_eq!(feeding.meals, vec![0, 0]);
}

#[test]
fn empty_world_has_no_feeding() {
    let feeding = resolve_feeding(&Vec::new(), |_, _| true);
    assert!(feeding.eaten_by.is_empty());
    assert!(feeding.meals.is_empty());
}

#[test]
fn food_without_creatures_stays() {
    let kinds = vec![F, F, F];
    let feeding = resolve_feeding(&kinds, |_, _| true);
    assert_eq!(feeding.eaten_by, vec![None, None, None]);
    assert_eq!(feeding.meals, vec![0, 0, 0]);
}

#[test]
fn creatures_without_food_get_nothing() {
    let kinds = vec![C, C];
    let feeding = resolve_feeding(&kinds, |_, _| true);
    assert_eq!(feeding.eaten_by, vec![None, None]);
    assert_eq!(feeding.meals, vec![0, 0]);
}

#[test]
fn first_creature_in_reach_is_credited() {
    let kinds = vec![F, C, C, C];
    let feeding = resolve_feeding(&kinds, |_, other| other >= 2);
    assert_eq!(feeding.eaten_by, vec![Some(2), None, None, None]);
    assert_eq!(feeding.meals, vec![0, 0, 1, 0]);
}

#[test]
fn food_is_never_an_eater_even_if_it_touches() {
    let kinds = vec![F, F, C];
    let feeding = resolve_feeding(&kinds, |_, _| true);
    assert_eq!(feeding.eaten_by, vec![Some(2), Some(2), None]);
    assert_eq!(feeding.meals, vec![0, 0, 2]);
}

#[test]
fn one_creature_may_eat_many_and_each_food_is_eaten_once() {
    let kinds = vec![C, F, C, F, F, C, F];
    let touching = [(1, 0), (1, 2), (3, 2), (3, 5), (4, 5), (6, 5), (6, 0)];
    let feeding = resolve_feeding(&kinds, |food, other| touching.contains(&(food, other)));
    assert_eq!(
        feeding.eaten_by,
        vec![None, Some(0), None, Some(2), Some(5), None, Some(0)]
    );
    assert_eq!(feeding.meals, vec![2, 0, 1, 0, 0, 1, 0]);
    let eaten = feeding.eaten_by.iter().filter(|by| by.is_some()).count();
    assert_eq!(feeding.meals.iter().sum::<usize>(), eaten);
}

#[test]
fn only_food_and_creature_pairs_are_asked_about() {
    let kinds = vec![C, F, C, F];
    let feeding = resolve_feeding(&kinds, |food, other| {
        assert_eq!(kinds[food], F);
        assert_eq!(kinds[other], C);
        false
    });
    assert_eq!(feeding.eaten_by, vec![None, None, None, None]);
}

#[test]
fn search_stops_at_the_first_creature_in_reach() {
    let kinds = vec![C, C, C, F];
    let asked = std::cell::RefCell::new(Vec::new());
    let eater = find_eater(&kinds, 3, &|food, other| {
        asked.borrow_mut().push((food, other));
        other == 1
    });
    assert_eq!(eater, Some(1));
    assert_eq!(*asked.borrow(), vec![(3, 0), (3, 1)]);
}

#[test]
fn find_eater_gives_none_when_nothing_touches() {
    let kinds = vec![C, F, C];
    assert_eq!(find_eater(&kinds, 1, &|_, _| false), None);
    assert_eq!(find_eater(&Vec::new(), 0, &|_, _| true), None);
}

#[test]
fn same_input_gives_same_feeding() {
    let kinds = vec![F, C, F, C, C, F];
    let touches = |food: usize, other: usize| (food * 7 + other * 3) % 4 == 1;
    let first = resolve_feeding(&kinds, touches);
    let second = resolve_feeding(&kinds, touches);
    assert_eq!(first.eaten_by, second.eaten_by);
    assert_eq!(first.meals, second.meals);
}
