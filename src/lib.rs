//! Segment lookup, epoch bookkeeping and the distance-unit codec of an
//! ephemeris archive, with their behaviour stated and proved.
use vstd::prelude::*;

pub mod ephemeris;
pub mod math;
pub mod units;

verus! {

} // verus!
