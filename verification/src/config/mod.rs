use vstd::prelude::*;

mod graphics;
pub use graphics::Graphics;

verus! {

/// Seed of the single random stream that drives a run.
pub const RNG_SEED: u128 = 0;

/// The immutable parameter bag of a run.
#[derive(Debug)]
pub struct Config {
    pub graphics: Graphics,
}

impl Config {
    /// The seed from which the run's random generator is built.
    pub fn rng_seed(&self) -> (seed: u128)
        ensures
            seed == RNG_SEED,
    {
        RNG_SEED
    }
}

impl Clone for Config {
    fn clone(&self) -> (copy: Self)
        ensures
            copy == *self,
    {
        Config { graphics: self.graphics.clone() }
    }
}

impl Default for Config {
    fn default() -> (config: Self)
        ensures
            config == (Config { graphics: Graphics {  } }),
    {
        Config { graphics: Graphics {  } }
    }
}

} // verus!
