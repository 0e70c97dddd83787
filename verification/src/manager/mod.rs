//! Proof lifecycle: counting work in flight, completion accounting, and stream scheduling.
use vstd::prelude::*;

pub mod completion;
pub mod counter;
pub mod scheduler;

verus! {

} // verus!
