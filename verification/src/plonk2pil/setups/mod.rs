//! The four trace setups, by hash family.
use vstd::prelude::*;

pub mod poseidon1;
pub mod poseidon2;

verus! {

} // verus!
