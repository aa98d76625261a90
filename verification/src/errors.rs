use vstd::prelude::*;

verus! {

/// The two fatal error kinds of the simulation.
///
/// `Configuration` is raised at construction time when a supplied weight
/// vector does not have the declared length; `DimensionMismatch` is raised
/// when scoring is attempted on vectors of unequal length.
#[derive(Clone, Copy, Debug, PartialEq, Eq, Structural)]
pub enum MatchError {
    Configuration,
    DimensionMismatch,
}

} // verus!
