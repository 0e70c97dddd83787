//! Setups of the Poseidon2 family.
use vstd::prelude::*;

use crate::plonk2pil::layout::{HashFamily, Layout, SetupType};
use crate::plonk2pil::merge_copies::UnsoundMerge;
use crate::plonk2pil::packer::{
    is_packed, is_refusal, merge_enforced, pack, packable, PlonkOptions, SetupResult,
};
use crate::plonk2pil::r1cs::R1csFile;

verus! {

/// The layout of an aggregation: 48 columns of which 24 are connected, 5 rows per Poseidon.
pub open spec fn aggregation_layout() -> Layout {
    Layout { family: HashFamily::Poseidon2, kind: SetupType::Aggregation }
}

/// The layout of a compressor: 27 connected columns, 10 rows per Poseidon.
pub open spec fn compressor_layout() -> Layout {
    Layout { family: HashFamily::Poseidon2, kind: SetupType::Compressor }
}

/// Pack an aggregation.
pub fn aggregation_compressor(r1cs: &R1csFile, options: &PlonkOptions, stamp: u64) -> (r: Result<
    SetupResult,
    UnsoundMerge,
>)
    requires
        packable(aggregation_layout(), *r1cs, options.merge_copies),
    ensures
        match r {
            Ok(s) => is_packed(aggregation_layout(), *r1cs, *options, stamp, s) && merge_enforced(
                aggregation_layout(),
                *r1cs,
                options.merge_copies,
            ),
            Err(e) => is_refusal(aggregation_layout(), *r1cs, options.merge_copies, e),
        },
{
    pack(
        Layout { family: HashFamily::Poseidon2, kind: SetupType::Aggregation },
        r1cs,
        options,
        stamp,
    )
}

/// Pack a compressor.
pub fn compressor(r1cs: &R1csFile, options: &PlonkOptions, stamp: u64) -> (r: Result<
    SetupResult,
    UnsoundMerge,
>)
    requires
        packable(compressor_layout(), *r1cs, options.merge_copies),
    ensures
        match r {
            Ok(s) => is_packed(compressor_layout(), *r1cs, *options, stamp, s) && merge_enforced(
                compressor_layout(),
                *r1cs,
                options.merge_copies,
            ),
            Err(e) => is_refusal(compressor_layout(), *r1cs, options.merge_copies, e),
        },
{
    pack(
        Layout { family: HashFamily::Poseidon2, kind: SetupType::Compressor },
        r1cs,
        options,
        stamp,
    )
}

} // verus!
