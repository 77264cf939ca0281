use vstd::prelude::*;

verus! {

/// Presentation settings carried along with the simulation parameters.
#[derive(Debug)]
pub struct Graphics {}

impl Clone for Graphics {
    fn clone(&self) -> (copy: Self)
        ensures
            copy == *self,
    {
        Graphics {  }
    }
}

impl Default for Graphics {
    fn default() -> (graphics: Self)
        ensures
            graphics == (Graphics {  }),
    {
        Graphics {  }
    }
}

} // verus!
