//! What the commands compute and decide.
use vstd::prelude::*;

pub mod prove;
pub mod prove_recursive;

verus! {

} // verus!
