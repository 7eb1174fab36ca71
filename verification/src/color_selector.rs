use vstd::prelude::*;

verus! {

/// The quantity of a particle that selects its colour.
#[derive(Debug, Clone, Copy, PartialEq, Eq)]
pub enum Indicator {
    /// The particle's speed.
    SPEED,
}

} // verus!
