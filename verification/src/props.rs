//! Simulation prop components.

use vstd::prelude::*;

verus! {

/// Marker component for the fire orb prop.  The orb carries no state of its
/// own: its bobbing height and spin are derived from the simulation clock by
/// the host each step.
#[derive(Clone, Copy, Debug, PartialEq, Eq, Structural)]
pub struct FireOrb {}

impl Default for FireOrb {
    /// A fresh fire orb marker.
    fn default() -> (r: Self)
        ensures
            r == (FireOrb {  }),
    {
        FireOrb {  }
    }
}

} // verus!
