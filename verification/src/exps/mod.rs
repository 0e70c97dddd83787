//! Generating CUDA kernels for the quotient expression of an AIR.
use vstd::prelude::*;

pub mod emit;
pub mod ir;
pub mod loads;
pub mod meaning;
pub mod program;
pub mod templates;
pub mod toolchain;

verus! {

} // verus!
