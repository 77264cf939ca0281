mod entity_type;
pub use entity_type::EntityType;
mod order;
pub use order::{
    is_negative, lemma_order_key_orders, magnitude, order_key, precedes, total_order_key,
};
mod target;
pub use target::{is_nearest_food, lemma_nearest_food_unique, nearest_food};
