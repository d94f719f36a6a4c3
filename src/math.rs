use vstd::prelude::*;

verus! {

/// Corrections for one-way light time and stellar aberration applied to a
/// target's state; only the uncorrected state is offered.
#[derive(Clone, Copy, Debug, PartialEq, Eq, Structural)]
pub enum Aberration {
    Uncorrected,
}

} // verus!
