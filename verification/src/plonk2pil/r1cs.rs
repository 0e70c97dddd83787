//! The R1CS data model: constraints over signals, custom gates and their uses.
use std::collections::HashMap;
use vstd::prelude::*;

verus! {

/// A linear combination: signal id to coefficient. Signal 0 is the constant one.
pub type LinearCombination = HashMap<u32, u64>;

/// Sizes and flags of an R1CS.
#[derive(Debug)]
pub struct R1csHeader {
    pub n8: u32,
    pub prime_bytes: Vec<u8>,
    pub n_vars: u32,
    pub n_outputs: u32,
    pub n_pub_inputs: u32,
    pub n_prv_inputs: u32,
    pub n_labels: u64,
    pub n_constraints: u32,
    pub use_custom_gates: bool,
}

/// One constraint `a * b = c`.
#[derive(Debug)]
pub struct R1csConstraint {
    pub a: LinearCombination,
    pub b: LinearCombination,
    pub c: LinearCombination,
}

/// What a custom gate computes, whatever hash family it belongs to.
#[derive(Clone, Copy, PartialEq, Eq, Structural, Debug)]
pub enum GateRole {
    PoseidonSponge,
    PoseidonCompression,
    CMul,
    EvPol4,
    Fft4,
    TreeSelector,
    SelectVal1,
}

/// What the hash-family registry knows of a template name: its role, and the family that
/// owns the template (by its index in the registry) where one does.
#[derive(Clone, Copy, PartialEq, Eq, Structural, Debug)]
pub struct KnownGate {
    pub role: GateRole,
    pub family: Option<u32>,
}

/// The declaration of a custom gate, with the registry's answer for its template name.
#[derive(Debug)]
pub struct CustomGate {
    pub template_name: String,
    pub parameters: Vec<u64>,
    pub known: Option<KnownGate>,
}

/// One use of a declared custom gate: its index and the signals it touches.
#[derive(Debug)]
pub struct CustomGateUse {
    pub id: u32,
    pub signals: Vec<u64>,
}

/// A whole R1CS.
#[derive(Debug)]
pub struct R1csFile {
    pub header: R1csHeader,
    pub constraints: Vec<R1csConstraint>,
    pub wire_to_label: Vec<u64>,
    pub custom_gates: Vec<CustomGate>,
    pub custom_gates_uses: Vec<CustomGateUse>,
}

/// The coefficient of a signal, zero where the signal does not occur.
pub open spec fn coef(m: Map<u32, u64>, s: u32) -> int {
    if m.dom().contains(s) {
        m[s] as int
    } else {
        0
    }
}

/// The value of a linear combination restricted to signals below `n`, under the witness `w`.
pub open spec fn lc_eval_below(m: Map<u32, u64>, w: spec_fn(u64) -> int, n: nat) -> int
    decreases n,
{
    if n == 0 {
        0
    } else {
        lc_eval_below(m, w, (n - 1) as nat) + coef(m, (n - 1) as u32) * w((n - 1) as u64)
    }
}

/// The number of signal ids.
pub open spec fn n_signal_ids() -> nat {
    0x1_0000_0000
}

/// The value of a linear combination under the witness `w`.
pub open spec fn lc_eval(m: Map<u32, u64>, w: spec_fn(u64) -> int) -> int {
    lc_eval_below(m, w, n_signal_ids())
}

/// The witness `w` satisfies the constraint `a * b = c` modulo the field prime.
pub open spec fn r1cs_holds(c: R1csConstraint, w: spec_fn(u64) -> int) -> bool {
    crate::field::residue(lc_eval(c.a@, w) * lc_eval(c.b@, w) - lc_eval(c.c@, w)) == 0
}

} // verus!
