//! Traces of pseudo-random invocations.
use rand::rngs::StdRng;
use rand::{RngExt, SeedableRng};
use vstd::prelude::*;

use crate::hashes::blake3;
use crate::hashes::sha2;
use crate::hashes::traces::{
    blake3_rows, counted, fill_blake3, fill_sha2, sha2_filled, Blake3Trace, Sha2Trace,
};
use crate::hashes::{invocations, law_invocations_fit, num_available};

verus! {

/// `rand::rngs::StdRng::seed_from_u64` seeds a generator, whose `random` gives the words of a
/// BLAKE3 state and message. The generator may differ between platforms, so nothing is said of the
/// words.
#[verifier::external_body]
fn random_blake3_input(seed: u64) -> (r: ([u32; 16], [u32; 16])) {
    let mut rng = StdRng::seed_from_u64(seed);
    let state: [u32; 16] = rng.random();
    let message: [u32; 16] = rng.random();
    (state, message)
}

/// `rand::rngs::StdRng::seed_from_u64` seeds a generator, whose `random` gives the words of a
/// SHA2-256 state and block. The generator may differ between platforms, so nothing is said of the
/// words.
#[verifier::external_body]
fn random_sha2_input(seed: u64) -> (r: ([u32; 8], [u32; 16])) {
    let mut rng = StdRng::seed_from_u64(seed);
    let state: [u32; 8] = rng.random();
    let input: [u32; 16] = rng.random();
    (state, input)
}

/// A trace of BLAKE3 over `num_rows` rows, filled with as many invocations as fit.
pub fn blake3_trace(num_rows: usize) -> (r: Blake3Trace)
    requires
        blake3::CLOCKS <= num_rows,
        16 * num_rows <= u64::MAX,
    ensures
        exists|inputs: Seq<([u32; 16], [u32; 16])>|
            inputs.len() == invocations(num_rows as int, blake3::CLOCKS as int) && r.rows@
                == #[trigger] blake3_rows(inputs, num_rows as nat),
        counted(r.table_counts@, r.range_counts@, r.rows@),
{
    let n: usize = num_available(num_rows, blake3::CLOCKS);
    proof {
        law_invocations_fit(num_rows as int, blake3::CLOCKS as int);
    }
    let mut inputs: Vec<([u32; 16], [u32; 16])> = Vec::new();
    let mut k: usize = 0;
    while k < n
        invariant
            k <= n,
            inputs@.len() == k,
        decreases n - k,
    {
        inputs.push(random_blake3_input(k as u64));
        k = k + 1;
    }
    fill_blake3(num_rows, &inputs)
}

/// A trace of SHA2-256 over `num_rows` rows with the round constants, filled with as many
/// invocations as fit.
pub fn sha2_trace(num_rows: usize, rc: &[u32; 64]) -> (r: Sha2Trace)
    requires
        sha2::CLOCKS <= num_rows,
    ensures
        exists|inputs: Seq<([u32; 8], [u32; 16])>|
            inputs.len() == invocations(num_rows as int, sha2::CLOCKS as int)
                && #[trigger] sha2_filled(r, num_rows, inputs, rc@),
{
    let n: usize = num_available(num_rows, sha2::CLOCKS);
    let mut inputs: Vec<([u32; 8], [u32; 16])> = Vec::new();
    let mut k: usize = 0;
    while k < n
        invariant
            k <= n,
            inputs@.len() == k,
        decreases n - k,
    {
        inputs.push(random_sha2_input(k as u64));
        k = k + 1;
    }
    fill_sha2(num_rows, &inputs, rc)
}

} // verus!
