//! The exact core of a discrete-time artificial-life simulation.
//!
//! A bounded world holds creatures and food. Creatures head for the nearest
//! food, eat what they touch, starve and reproduce. Positions, velocities and
//! energy are floating-point numbers and are the caller's to compute; this
//! crate holds what is exact about the engine, and proves it:
//!
//! - [`EntityList`], a stable-index arena with slot reuse;
//! - [`world::nearest_food`], which picks the food a creature heads for from
//!   the order keys of the distances ([`world::total_order_key`]);
//! - [`feeding::resolve_feeding`], which pairs each food item with the
//!   creature that eats it;
//! - [`Config`], as far as its parameters are integers.

pub mod entity_list;
pub use entity_list::EntityList;
mod config;
pub use config::{Config, Graphics, RNG_SEED};
pub mod feeding;
pub mod world;
