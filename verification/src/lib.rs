//! Setup, scheduling and verification logic of the proof manager.
use vstd::prelude::*;

pub mod circom;
pub mod cli;
pub mod exps;
pub mod field;
pub mod field_inverse;
pub mod field_prime;
pub mod hashes;
pub mod manager;
pub mod parse;
pub mod paths;
pub mod plonk2pil;
pub mod rows;
pub mod setup;
pub mod stark_verifier;
pub mod text;
pub mod words;

verus! {

} // verus!
