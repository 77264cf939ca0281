use vstd::prelude::*;

verus! {

/// The kind of an entity, without its payload.
#[derive(Debug, Clone, Copy, PartialEq, Eq, Structural)]
pub enum EntityType {
    Creature,
    Food,
}

} // verus!
