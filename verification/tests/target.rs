use std::cmp::Ordering;

use evolution::world::{nearest_food, total_order_key, EntityType};

const C: EntityType = EntityType::Creature;
const F: EntityType = EntityType::Food;

#[test]
fn nothing_in_sight_gives_no_target() {
    assert_eq!(nearest_food(&Vec::new()), None);
}

#[test]
fn creatures_are_no_target() {
    assert_eq!(nearest_food(&vec![(C, 0), (C, -5), (C, 9)]), None);
}

#[test]
fn nearest_food_has_the_least_key() {
    let seen = vec![(F, 40), (C, 1), (F, 7), (F, 19)];
    assert_eq!(nearest_food(&seen), Some(2));
}

#[test]
fn a_nearer_creature_does_not_hide_food() {
    let seen = vec![(C, i32::MIN), (F, i32::MAX)];
    assert_eq!(nearest_food(&seen), Some(1));
}

#[test]
fn first_of_equally_near_food_wins() {
    let seen = vec![(F, 9), (F, 3), (C, 3), (F, 3), (F, 3)];
    assert_eq!(nearest_food(&seen), Some(1));
}

#[test]
fn single_food_is_the_target() {
    assert_eq!(nearest_food(&vec![(F, 123)]), Some(0));
}

#[test]
fn keys_of_known_patterns() {
    assert_eq!(total_order_key(0x0000_0000), 0);
    assert_eq!(total_order_key(0x0000_0001), 1);
    assert_eq!(total_order_key(0x3F80_0000), 1_065_353_216);
    assert_eq!(total_order_key(0x7F80_0000), 2_139_095_040);
    assert_eq!(total_order_key(0x7FFF_FFFF), i32::MAX);
    assert_eq!(total_order_key(0x8000_0000), -1);
    assert_eq!(total_order_key(0x8000_0001), -2);
    assert_eq!(total_order_key(0xBF80_0000), -1_065_353_217);
    assert_eq!(total_order_key(0xFF80_0000), -2_139_095_041);
    assert_eq!(total_order_key(0xFFFF_FFFF), i32::MIN);
}

#[test]
fn keys_sort_as_the_total_order_on_floats() {
    let values = [
        f32::NEG_INFINITY,
        f32::MIN,
        -2.5,
        -1.0,
        -f32::MIN_POSITIVE,
        -0.0,
        0.0,
        f32::MIN_POSITIVE,
        0.5,
        1.0,
        34.5,
        f32::MAX,
        f32::INFINITY,
        f32::NAN,
        -f32::NAN,
    ];
    for a in values {
        for b in values {
            let by_key = total_order_key(a.to_bits()).cmp(&total_order_key(b.to_bits()));
            assert_eq!(by_key, a.total_cmp(&b), "{a} against {b}");
        }
    }
}

#[test]
fn negative_zero_comes_just_before_zero() {
    let below = total_order_key((-0.0f32).to_bits());
    let above = total_order_key(0.0f32.to_bits());
    assert_eq!(below.cmp(&above), Ordering::Less);
    assert_eq!(above - below, 1);
}

#[test]
fn target_is_the_food_at_the_least_squared_distance() {
    let origin = (2.0f32, 3.0f32);
    let entities = [(F, (10.0f32, 3.0f32)), (C, (2.0, 3.5)), (F, (2.0, 6.0)), (F, (5.0, 3.0))];
    let seen: Vec<(EntityType, i32)> = entities
        .iter()
        .map(|&(kind, (x, y))| {
            let squared = (x - origin.0) * (x - origin.0) + (y - origin.1) * (y - origin.1);
            (kind, total_order_key(squared.to_bits()))
        })
        .collect();
    assert_eq!(nearest_food(&seen), Some(2));
}
