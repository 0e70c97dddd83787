//! Rows of a trace: how they are packed, and the accessors that are generated for them.
use vstd::prelude::*;

pub mod indexed;
pub mod packed_info;
pub mod trait_row;

verus! {

} // verus!
