//! Checking a STARK proof: its size, its parts, what goes into the transcript, and the verdict.
use vstd::prelude::*;

pub mod check_info;
pub mod cubic;
pub mod domain;
pub mod proof_parts;
pub mod questions;
pub mod size;
pub mod transcript;
pub mod verdict;
pub mod verdict_laws;

verus! {

/// A boundary of the constraint domain.
#[derive(Debug)]
pub struct Boundary {
    pub name: String,
    pub offset_min: Option<u64>,
    pub offset_max: Option<u64>,
}

/// What a verifier knows of the circuit whose proof it checks.
#[derive(Debug)]
pub struct VerifierInfo {
    pub n_stages: u32,
    pub n_constants: u64,
    pub n_evals: u64,
    pub n_bits: u64,
    pub n_bits_ext: u64,
    pub arity: u64,
    pub n_fri_queries: u64,
    pub n_fri_steps: u64,
    pub n_challenges: u64,
    pub n_challenges_total: u64,
    pub fri_steps: Vec<u64>,
    pub hash_commits: bool,
    pub num_vals: Vec<u64>,
    pub opening_points: Vec<i64>,
    pub boundaries: Vec<Boundary>,
    pub q_deg: u64,
    pub q_index: u64,
    pub last_level_verification: u64,
    pub pow_bits: u64,
}

} // verus!
