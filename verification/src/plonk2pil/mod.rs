//! From an R1CS to a packed PLONK trace.
use vstd::prelude::*;
use vstd::string::StringExecFns;

use crate::text::str_eq;

pub mod custom_gates;
pub mod estimate;
pub mod estimate_report;
pub mod exec_file;
pub mod grid;
pub mod layout;
pub mod merge_copies;
pub mod merge_laws;
pub mod open_gates;
pub mod packer;
pub mod packer_laws;
pub mod placement;
pub mod placement_laws;
pub mod placer;
pub mod r1cs;
pub mod rows;
pub mod satisfaction;
pub mod setups;
pub mod stencil;
pub mod to_plonk;
pub mod trace_laws;

use exec_file::{exec_words, write_exec_file};
use grid::grid;
use layout::{HashFamily, Layout, SetupType};
use merge_copies::{unsound_text, UnsoundMerge};
use packer::{
    is_packed, is_refusal, merge_enforced, packable, PilTemplateParams, PlonkOptions, SetupResult,
};
use r1cs::R1csFile;
use setups::{poseidon1, poseidon2};

verus! {

impl Default for PlonkOptions {
    /// No airgroup name and degree given, no hash family chosen, copies not merged.
    fn default() -> (r: Self)
        ensures
            r.airgroup_name is None,
            r.max_constraint_degree is None,
            r.hash_id@ == Seq::<char>::empty(),
            !r.merge_copies,
    {
        PlonkOptions {
            airgroup_name: None,
            max_constraint_degree: None,
            hash_id: String::new(),
            merge_copies: false,
        }
    }
}

/// Why an R1CS was not packed.
#[derive(Debug)]
pub enum PlonkError {
    /// The setup type is neither `compressor` nor `aggregation`.
    InvalidSetupType { setup_type: String },
    /// The bytes are no R1CS.
    Unreadable,
    /// The hash family has no packer.
    UnknownHash { hash_id: String },
    /// Merging copies would leave equalities unenforced.
    Unsound(UnsoundMerge),
}

impl PlonkError {
    /// What to tell the user.
    pub fn message(&self) -> (r: String)
        ensures
            r@ == match *self {
                PlonkError::InvalidSetupType { setup_type } => "Invalid setup type: '"@
                    + setup_type@ + "'. Must be one of: compressor, aggregation"@,
                PlonkError::Unreadable => "Failed to read R1CS"@,
                PlonkError::UnknownHash { hash_id } => "Unknown hash family: '"@ + hash_id@ + "'"@,
                PlonkError::Unsound(e) => unsound_text(e.bad as nat, e.n_cols as nat),
            },
    {
        match self {
            PlonkError::InvalidSetupType { setup_type } => {
                let mut out: String = "Invalid setup type: '".to_owned();
                out.append(setup_type.as_str());
                out.append("'. Must be one of: compressor, aggregation");
                out
            },
            PlonkError::Unreadable => "Failed to read R1CS".to_owned(),
            PlonkError::UnknownHash { hash_id } => {
                let mut out: String = "Unknown hash family: '".to_owned();
                out.append(hash_id.as_str());
                out.append("'");
                out
            },
            PlonkError::Unsound(e) => e.message(),
        }
    }
}

/// Everything that proof generation needs of a packed R1CS.
pub struct PlonkResult {
    /// Execution buffer: additions and signal map.
    pub exec_buffer: Vec<u64>,
    /// What the PIL source is made from.
    pub pil: PilTemplateParams,
    /// Fixed coefficients, by column.
    pub cv: Vec<Vec<u64>>,
    /// Placed signals, by column.
    pub s_map: Vec<Vec<u32>>,
    /// log2 of the number of rows.
    pub n_bits: usize,
    /// Rows used before padding to a power of two.
    pub n_used: usize,
    pub airgroup_name: String,
    pub air_name: String,
}

/// The setup type of a name.
pub open spec fn setup_type_of(name: Seq<char>) -> Option<SetupType> {
    if name == "compressor"@ {
        Some(SetupType::Compressor)
    } else if name == "aggregation"@ {
        Some(SetupType::Aggregation)
    } else {
        None
    }
}

/// The setup type of a name.
pub fn parse_setup_type(name: &str) -> (r: Option<SetupType>)
    ensures
        r == setup_type_of(name@),
{
    if str_eq(name, "compressor") {
        Some(SetupType::Compressor)
    } else if str_eq(name, "aggregation") {
        Some(SetupType::Aggregation)
    } else {
        None
    }
}

/// The hash family of a name.
pub open spec fn family_of(name: Seq<char>) -> Option<HashFamily> {
    if name == "Poseidon1"@ {
        Some(HashFamily::Poseidon1)
    } else if name == "Poseidon2"@ {
        Some(HashFamily::Poseidon2)
    } else {
        None
    }
}

/// The hash family of a name.
pub fn parse_family(name: &str) -> (r: Option<HashFamily>)
    ensures
        r == family_of(name@),
{
    if str_eq(name, "Poseidon1") {
        Some(HashFamily::Poseidon1)
    } else if str_eq(name, "Poseidon2") {
        Some(HashFamily::Poseidon2)
    } else {
        None
    }
}

/// The layout of a setup type and hash family, where both are known.
pub open spec fn layout_of(setup_type: Seq<char>, options: PlonkOptions) -> Option<Layout> {
    match (setup_type_of(setup_type), family_of(options.hash_id@)) {
        (Some(kind), Some(family)) => Some(Layout { family, kind }),
        _ => None,
    }
}

/// The result carries a packed trace and its execution buffer.
pub open spec fn is_plonk_result(
    l: Layout,
    r1cs: R1csFile,
    options: PlonkOptions,
    stamp: u64,
    p: PlonkResult,
) -> bool {
    exists|s: SetupResult| #[trigger]
        is_packed(l, r1cs, options, stamp, s) && p.pil == s.pil && p.cv == s.cv && p.s_map
            == s.s_map && p.n_bits == s.n_bits && p.n_used == s.n_used && p.airgroup_name
            == s.airgroup_name && p.air_name == s.air_name && p.exec_buffer@ == exec_words(
            s.plonk_additions@,
            grid(s.s_map@),
        )
}

/// Pack an R1CS for a setup type, with the hash family that the options name. `stamp` names the
/// airgroup where the options do not.
pub fn plonk2pil(r1cs: &R1csFile, setup_type: &str, options: &PlonkOptions, stamp: u64) -> (r:
    Result<PlonkResult, PlonkError>)
    requires
        layout_of(setup_type@, *options) matches Some(l) ==> packable(
            l,
            *r1cs,
            options.merge_copies,
        ),
    ensures
        match r {
            Ok(p) => layout_of(setup_type@, *options) matches Some(l) && is_plonk_result(
                l,
                *r1cs,
                *options,
                stamp,
                p,
            ) && merge_enforced(l, *r1cs, options.merge_copies),
            Err(PlonkError::InvalidSetupType { setup_type: s }) => setup_type_of(setup_type@) is None
                && s@ == setup_type@,
            Err(PlonkError::Unreadable) => false,
            Err(PlonkError::UnknownHash { hash_id }) => setup_type_of(setup_type@) is Some
                && family_of(options.hash_id@) is None && hash_id@ == options.hash_id@,
            Err(PlonkError::Unsound(e)) => layout_of(setup_type@, *options) matches Some(l)
                && is_refusal(l, *r1cs, options.merge_copies, e),
        },
{
    let kind: SetupType = match parse_setup_type(setup_type) {
        Some(kind) => kind,
        None => return Err(PlonkError::InvalidSetupType { setup_type: setup_type.to_owned() }),
    };
    let family: HashFamily = match parse_family(options.hash_id.as_str()) {
        Some(family) => family,
        None => return Err(PlonkError::UnknownHash { hash_id: options.hash_id.as_str().to_owned() }),
    };
    let ghost l = Layout { family, kind };
    let packed: Result<SetupResult, UnsoundMerge> = match (kind, family) {
        (SetupType::Compressor, HashFamily::Poseidon1) => poseidon1::compressor(
            r1cs,
            options,
            stamp,
        ),
        (SetupType::Compressor, HashFamily::Poseidon2) => poseidon2::compressor(
            r1cs,
            options,
            stamp,
        ),
        (SetupType::Aggregation, HashFamily::Poseidon1) => poseidon1::aggregation_compressor(
            r1cs,
            options,
            stamp,
        ),
        (SetupType::Aggregation, HashFamily::Poseidon2) => poseidon2::aggregation_compressor(
            r1cs,
            options,
            stamp,
        ),
    };
    match packed {
        Err(e) => Err(PlonkError::Unsound(e)),
        Ok(s) => {
            let exec_buffer: Vec<u64> = write_exec_file(s.plonk_additions.as_slice(), &s.s_map);
            let ghost kept = s;
            let p: PlonkResult = PlonkResult {
                exec_buffer,
                pil: s.pil,
                cv: s.cv,
                s_map: s.s_map,
                n_bits: s.n_bits,
                n_used: s.n_used,
                airgroup_name: s.airgroup_name,
                air_name: s.air_name,
            };
            assert(is_packed(l, *r1cs, *options, stamp, kept));
            Ok(p)
        },
    }
}

/// Pack what was read from the bytes of an R1CS, if they are one. The setup type is looked at first:
/// where it is not known, nothing else counts.
pub fn pack_bytes(
    read: &Option<R1csFile>,
    setup_type: &str,
    options: &PlonkOptions,
    stamp: u64,
) -> (r: Result<PlonkResult, PlonkError>)
    requires
        match (*read, layout_of(setup_type@, *options)) {
            (Some(r1cs), Some(l)) => packable(l, r1cs, options.merge_copies),
            _ => true,
        },
    ensures
        match r {
            Ok(p) => match (*read, layout_of(setup_type@, *options)) {
                (Some(r1cs), Some(l)) => is_plonk_result(l, r1cs, *options, stamp, p)
                    && merge_enforced(l, r1cs, options.merge_copies),
                _ => false,
            },
            Err(PlonkError::InvalidSetupType { setup_type: s }) => setup_type_of(setup_type@) is None
                && s@ == setup_type@,
            Err(PlonkError::Unreadable) => setup_type_of(setup_type@) is Some && *read is None,
            Err(PlonkError::UnknownHash { hash_id }) => setup_type_of(setup_type@) is Some && *read
                is Some && family_of(options.hash_id@) is None && hash_id@ == options.hash_id@,
            Err(PlonkError::Unsound(e)) => match (*read, layout_of(setup_type@, *options)) {
                (Some(r1cs), Some(l)) => is_refusal(l, r1cs, options.merge_copies, e),
                _ => false,
            },
        },
{
    if parse_setup_type(setup_type).is_none() {
        return Err(PlonkError::InvalidSetupType { setup_type: setup_type.to_owned() });
    }
    match read {
        Some(r1cs) => plonk2pil(r1cs, setup_type, options, stamp),
        None => Err(PlonkError::Unreadable),
    }
}

} // verus!
