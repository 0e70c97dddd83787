//! The command that proves one recursive circuit from a proof file.
use vstd::arithmetic::power2::pow2;
use vstd::prelude::*;
use vstd::string::StringExecFns;

use crate::circom::bn128_info::power_of_two;
use crate::parse::{digits_value, is_number, parse_number, unsigned_digits};
use crate::plonk2pil::exec_file::{law_exec_size, n_rows};
use crate::plonk2pil::to_plonk::PlonkAddition;
use crate::text::{chars_of, concat2, dec, push_dec};
use crate::words::{are_bytes_of, bytes_to_words};

verus! {

/// The arguments of the command.
pub struct ProveRecursiveCmd {
    pub proof: String,
    pub proving_key: String,
    /// Stop once the witness is there.
    pub emit_witness_only: bool,
    pub gpu: bool,
    pub verbose: u8,
}

/// How the name of a proof file says which circuit it is for.
pub const PROOF_NAME: &'static str = r"ag(\d+)_air(\d+)_t([A-Za-z0-9]+)";

/// The texts of three groups.
pub open spec fn group_texts(g: Option<(String, String, String)>) -> Option<
    (Seq<char>, Seq<char>, Seq<char>),
> {
    match g {
        Some((a, b, c)) => Some((a@, b@, c@)),
        None => None,
    }
}

/// What `regex::Regex::captures` gives for the first three groups of a pattern in a text: nothing
/// where the pattern is not one, does not match, or leaves one of them out.
pub uninterp spec fn captured(pattern: Seq<char>, text: Seq<char>) -> Option<
    (Seq<char>, Seq<char>, Seq<char>),
>;

/// `regex::Regex::captures` gives the groups of the first match, which depend on the pattern and
/// the text alone.
#[verifier::external_body]
fn captures(pattern: &str, text: &str) -> (r: Option<(String, String, String)>)
    ensures
        group_texts(r) == captured(pattern@, text@),
{
    let re = regex::Regex::new(pattern).ok()?;
    let c = re.captures(text)?;
    let a = c.get(1)?.as_str().to_owned();
    let b = c.get(2)?.as_str().to_owned();
    let d = c.get(3)?.as_str().to_owned();
    Some((a, b, d))
}

/// The circuit that a proof file is for.
pub struct ProofName {
    pub airgroup_id: usize,
    pub air_id: usize,
    pub proof_type: String,
}

/// What is wrong with a proof file.
pub enum ProofFileError {
    /// Its size is no multiple of a word.
    BadSize { bytes: usize },
    /// Its name does not say which circuit it is for.
    BadName,
    /// The witness could not be computed.
    NoWitness,
    /// The proof that was made does not verify.
    NotVerified,
}

impl ProofFileError {
    /// What to tell the user.
    pub fn message(&self) -> (r: String)
        ensures
            r@ == match *self {
                ProofFileError::BadSize { bytes } => "Proof file size ("@ + dec(bytes as nat)
                    + " bytes) is not a multiple of 8"@,
                ProofFileError::BadName => "Proof file name does not name a circuit"@,
                ProofFileError::NoWitness => "Error generating witness"@,
                ProofFileError::NotVerified => "Recursive proof verification failed"@,
            },
    {
        match self {
            ProofFileError::BadSize { bytes } => {
                let mut out: String = "Proof file size (".to_owned();
                push_dec(&mut out, *bytes as u64);
                out.append(" bytes) is not a multiple of 8");
                out
            },
            ProofFileError::BadName => "Proof file name does not name a circuit".to_owned(),
            ProofFileError::NoWitness => "Error generating witness".to_owned(),
            ProofFileError::NotVerified => "Recursive proof verification failed".to_owned(),
        }
    }
}

/// The circuit that the groups of a file name say.
pub open spec fn is_proof_name(
    r: Result<ProofName, ProofFileError>,
    g: Option<(Seq<char>, Seq<char>, Seq<char>)>,
) -> bool {
    match g {
        Some((a, b, t)) => if is_number(a, usize::MAX as nat) && is_number(b, usize::MAX as nat) {
            match r {
                Ok(n) => n.airgroup_id == digits_value(unsigned_digits(a)) && n.air_id
                    == digits_value(unsigned_digits(b)) && n.proof_type@ == t,
                Err(_) => false,
            }
        } else {
            r is Err && r->Err_0 is BadName
        },
        None => r is Err && r->Err_0 is BadName,
    }
}

/// The circuit that the groups of a file name say.
pub fn name_from_groups(g: Option<(String, String, String)>) -> (r: Result<
    ProofName,
    ProofFileError,
>)
    ensures
        is_proof_name(r, group_texts(g)),
{
    match g {
        None => Err(ProofFileError::BadName),
        Some((a, b, t)) => match parse_number(&chars_of(a.as_str()), usize::MAX as u64) {
            None => Err(ProofFileError::BadName),
            Some(airgroup) => match parse_number(&chars_of(b.as_str()), usize::MAX as u64) {
                None => Err(ProofFileError::BadName),
                Some(air) => Ok(
                    ProofName { airgroup_id: airgroup as usize, air_id: air as usize, proof_type: t },
                ),
            },
        },
    }
}

/// The circuit that a proof file is for, by its name.
pub fn parse_proof_name(path: &str) -> (r: Result<ProofName, ProofFileError>)
    ensures
        is_proof_name(r, captured(PROOF_NAME@, path@)),
{
    let g: Option<(String, String, String)> = captures(PROOF_NAME, path);
    name_from_groups(g)
}

/// The words of a proof file.
pub fn proof_words(bytes: &[u8]) -> (r: Result<Vec<u64>, ProofFileError>)
    ensures
        match r {
            Ok(words) => are_bytes_of(bytes@, words@),
            Err(ProofFileError::BadSize { bytes: n }) => bytes@.len() % 8 != 0 && n == bytes@.len(),
            Err(_) => false,
        },
{
    match bytes_to_words(bytes) {
        Some(words) => Ok(words),
        None => Err(ProofFileError::BadSize { bytes: bytes.len() }),
    }
}

/// The files around a circuit.
pub struct CircuitFiles {
    pub library: String,
    pub dat: String,
    pub exec_path: String,
    pub starkinfo: String,
    pub verifier_bin: String,
    pub verkey: String,
}

/// The files around a circuit.
pub fn circuit_files(setup_path: &str, mac: bool) -> (r: CircuitFiles)
    ensures
        r.library@ == setup_path@ + (if mac {
            ".dylib"@
        } else {
            ".so"@
        }),
        r.dat@ == setup_path@ + ".dat"@,
        r.exec_path@ == setup_path@ + ".exec"@,
        r.starkinfo@ == setup_path@ + ".starkinfo.json"@,
        r.verifier_bin@ == setup_path@ + ".verifier.bin"@,
        r.verkey@ == setup_path@ + ".verkey.json"@,
{
    CircuitFiles {
        library: concat2(
            setup_path,
            if mac {
                ".dylib"
            } else {
                ".so"
            },
        ),
        dat: concat2(setup_path, ".dat"),
        exec_path: concat2(setup_path, ".exec"),
        starkinfo: concat2(setup_path, ".starkinfo.json"),
        verifier_bin: concat2(setup_path, ".verifier.bin"),
        verkey: concat2(setup_path, ".verkey.json"),
    }
}

/// The header of an exec file: how many additions it holds, and how many rows of the signal map.
#[derive(Clone, Copy, PartialEq, Eq, Structural, Debug)]
pub struct ExecHeader {
    pub n_adds: u64,
    pub n_smap: u64,
}

/// The header of an exec file, from its first two words; nothing where it is shorter.
pub fn exec_header(words: &Vec<u64>) -> (r: Option<ExecHeader>)
    ensures
        r == if words@.len() >= 2 {
            Some(ExecHeader { n_adds: words@[0], n_smap: words@[1] })
        } else {
            None::<ExecHeader>
        },
{
    if words.len() >= 2 {
        Some(ExecHeader { n_adds: words[0], n_smap: words[1] })
    } else {
        None
    }
}

/// The words of an exec file over a trace of `n_cols` columns: its header, four for each
/// addition, and a row of the signal map for each row.
pub open spec fn exec_words(h: ExecHeader, n_cols: u64) -> int {
    2 + h.n_adds * 4 + h.n_smap * n_cols
}

/// The words of an exec file.
pub fn exec_data_size(h: ExecHeader, n_cols: u64) -> (r: u64)
    requires
        exec_words(h, n_cols) <= u64::MAX,
    ensures
        r == exec_words(h, n_cols),
{
    proof {
        assert(0 <= h.n_smap * n_cols) by (nonlinear_arith)
            requires
                0 <= h.n_smap,
                0 <= n_cols,
        ;
    }
    2 + h.n_adds * 4 + h.n_smap * n_cols
}

/// The sizes of a proof's buffers.
#[derive(Clone, Copy, PartialEq, Eq, Structural, Debug)]
pub struct BufferSizes {
    /// The witness: that of the circuit, and one value for each addition.
    pub witness: u64,
    pub rows: u64,
    pub trace: u64,
    /// The proof behind the publics that are aggregated.
    pub proof: u64,
    /// The constants and their tree, which a GPU loads by itself.
    pub constants: u64,
    pub constant_tree: u64,
}

/// What the sizes of a proof's buffers are computed from.
#[derive(Clone, Copy, PartialEq, Eq, Structural, Debug)]
pub struct CircuitSizes {
    pub circuit_witness: u64,
    pub n_adds: u64,
    pub n_bits: u64,
    pub n_cols: u64,
    pub n_constants: u64,
    pub constant_tree: u64,
    pub proof_size: u64,
    pub publics_aggregation: u64,
}

/// The buffers fit.
pub open spec fn buffers_fit(c: CircuitSizes, gpu: bool) -> bool {
    &&& c.n_bits < 64
    &&& c.circuit_witness + c.n_adds <= u64::MAX
    &&& c.n_cols * pow2(c.n_bits as nat) <= u64::MAX
    &&& !gpu ==> c.n_constants * pow2(c.n_bits as nat) <= u64::MAX
    &&& c.proof_size + c.publics_aggregation <= u64::MAX
}

/// The sizes of a proof's buffers.
pub fn buffer_sizes(c: CircuitSizes, gpu: bool) -> (r: BufferSizes)
    requires
        buffers_fit(c, gpu),
    ensures
        r.witness == c.circuit_witness + c.n_adds,
        r.rows == pow2(c.n_bits as nat),
        r.trace == c.n_cols * pow2(c.n_bits as nat),
        r.proof == c.proof_size + c.publics_aggregation,
        r.constants == if gpu {
            0
        } else {
            c.n_constants * pow2(c.n_bits as nat)
        },
        r.constant_tree == if gpu {
            0
        } else {
            c.constant_tree as int
        },
{
    let rows: u64 = power_of_two(c.n_bits);
    BufferSizes {
        witness: c.circuit_witness + c.n_adds,
        rows,
        trace: c.n_cols * rows,
        proof: c.proof_size + c.publics_aggregation,
        constants: if gpu {
            0
        } else {
            c.n_constants * rows
        },
        constant_tree: if gpu {
            0
        } else {
            c.constant_tree
        },
    }
}

/// What follows once the witness was asked for.
#[derive(Clone, Copy, PartialEq, Eq, Structural, Debug)]
pub enum AfterWitness {
    Fail,
    Stop,
    Prove,
}

impl ProveRecursiveCmd {
    /// What follows once the witness was asked for: `code` is zero where it was computed.
    pub fn after_witness(&self, code: i64) -> (r: AfterWitness)
        ensures
            r == if code != 0 {
                AfterWitness::Fail
            } else if self.emit_witness_only {
                AfterWitness::Stop
            } else {
                AfterWitness::Prove
            },
    {
        if code != 0 {
            AfterWitness::Fail
        } else if self.emit_witness_only {
            AfterWitness::Stop
        } else {
            AfterWitness::Prove
        }
    }
}

/// The size of an exec file that was written can be read off its header.
pub proof fn law_exec_file_has_its_size(adds: Seq<PlonkAddition>, g: Seq<Seq<u32>>)
    requires
        adds.len() <= u64::MAX,
        n_rows(g) <= u64::MAX,
        g.len() <= u64::MAX,
    ensures
        ({
            let w = crate::plonk2pil::exec_file::exec_words(adds, g);
            exec_words(ExecHeader { n_adds: w[0], n_smap: w[1] }, g.len() as u64) == w.len()
        }),
{
    law_exec_size(adds, g);
}

} // verus!
