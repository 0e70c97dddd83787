//! What every stage of a setup shares: its files, and how its circuit is compiled.
use vstd::prelude::*;
use vstd::string::StringExecFns;

use crate::exps::emit::texts;
use crate::paths::{join, joined};

verus! {

/// The file `name` with an ending, below `dir`.
pub open spec fn file_path(dir: Seq<char>, name: Seq<char>, ending: Seq<char>) -> Seq<char> {
    joined(dir, name + ending)
}

/// The file `name` with an ending, below `dir`.
pub fn file_in(dir: &str, name: &str, ending: &str) -> (r: String)
    ensures
        r@ == file_path(dir@, name@, ending@),
{
    let mut file: String = name.to_owned();
    file.append(ending);
    join(dir, file.as_str())
}

/// The files of a stage.
pub struct StageFiles {
    pub circom_dir: String,
    pub build_path: String,
    pub pil_dir: String,
    pub files_dir: String,
    /// The circuit's source.
    pub circom: String,
    /// Its constraints, and the data its witness generator needs.
    pub r1cs: String,
    pub dat_src: String,
    pub dat_dst: String,
    /// The fixed columns, the PIL source and what it compiles to.
    pub fixed_bin: String,
    pub pil: String,
    pub pilout: String,
    /// What the prover reads.
    pub exec_path: String,
    pub constants: String,
    pub starkinfo: String,
    pub verifierinfo: String,
    pub expressionsinfo: String,
    pub bin: String,
    pub verifier_bin: String,
    pub verifier_rs: String,
    pub verkey_json: String,
    pub verkey_bin: String,
    pub vks_json: String,
}

/// The files of a stage whose circuit is `circuit`, whose PIL is `pil_name`, and whose results
/// are called `label`.
pub open spec fn are_stage_files(
    f: StageFiles,
    build_dir: Seq<char>,
    files_dir: Seq<char>,
    circuit: Seq<char>,
    pil_name: Seq<char>,
    label: Seq<char>,
) -> bool {
    let circom_dir = joined(build_dir, "circom"@);
    let build_path = joined(build_dir, "build"@);
    let pil_dir = joined(build_dir, "pil"@);
    &&& f.circom_dir@ == circom_dir
    &&& f.build_path@ == build_path
    &&& f.pil_dir@ == pil_dir
    &&& f.files_dir@ == files_dir
    &&& f.circom@ == file_path(circom_dir, circuit, ".circom"@)
    &&& f.r1cs@ == file_path(build_path, circuit, ".r1cs"@)
    &&& f.dat_src@ == file_path(file_path(build_path, circuit, "_cpp"@), circuit, ".dat"@)
    &&& f.dat_dst@ == file_path(files_dir, label, ".dat"@)
    &&& f.fixed_bin@ == file_path(build_path, pil_name, ".fixed.bin"@)
    &&& f.pil@ == file_path(pil_dir, pil_name, ".pil"@)
    &&& f.pilout@ == file_path(build_path, pil_name, ".pilout"@)
    &&& f.exec_path@ == file_path(files_dir, label, ".exec"@)
    &&& f.constants@ == file_path(files_dir, label, ".const"@)
    &&& f.starkinfo@ == file_path(files_dir, label, ".starkinfo.json"@)
    &&& f.verifierinfo@ == file_path(files_dir, label, ".verifierinfo.json"@)
    &&& f.expressionsinfo@ == file_path(files_dir, label, ".expressionsinfo.json"@)
    &&& f.bin@ == file_path(files_dir, label, ".bin"@)
    &&& f.verifier_bin@ == file_path(files_dir, label, ".verifier.bin"@)
    &&& f.verifier_rs@ == file_path(files_dir, label, ".verifier.rs"@)
    &&& f.verkey_json@ == file_path(files_dir, label, ".verkey.json"@)
    &&& f.verkey_bin@ == file_path(files_dir, label, ".verkey.bin"@)
    &&& f.vks_json@ == file_path(files_dir, label, ".vks.json"@)
}

/// The files of a stage.
pub fn stage_files(build_dir: &str, files_dir: &str, circuit: &str, pil_name: &str, label: &str) -> (r:
    StageFiles)
    ensures
        are_stage_files(r, build_dir@, files_dir@, circuit@, pil_name@, label@),
{
    let circom_dir: String = join(build_dir, "circom");
    let build_path: String = join(build_dir, "build");
    let pil_dir: String = join(build_dir, "pil");
    let cpp_dir: String = file_in(build_path.as_str(), circuit, "_cpp");
    StageFiles {
        circom: file_in(circom_dir.as_str(), circuit, ".circom"),
        r1cs: file_in(build_path.as_str(), circuit, ".r1cs"),
        dat_src: file_in(cpp_dir.as_str(), circuit, ".dat"),
        dat_dst: file_in(files_dir, label, ".dat"),
        fixed_bin: file_in(build_path.as_str(), pil_name, ".fixed.bin"),
        pil: file_in(pil_dir.as_str(), pil_name, ".pil"),
        pilout: file_in(build_path.as_str(), pil_name, ".pilout"),
        exec_path: file_in(files_dir, label, ".exec"),
        constants: file_in(files_dir, label, ".const"),
        starkinfo: file_in(files_dir, label, ".starkinfo.json"),
        verifierinfo: file_in(files_dir, label, ".verifierinfo.json"),
        expressionsinfo: file_in(files_dir, label, ".expressionsinfo.json"),
        bin: file_in(files_dir, label, ".bin"),
        verifier_bin: file_in(files_dir, label, ".verifier.bin"),
        verifier_rs: file_in(files_dir, label, ".verifier.rs"),
        verkey_json: file_in(files_dir, label, ".verkey.json"),
        verkey_bin: file_in(files_dir, label, ".verkey.bin"),
        vks_json: file_in(files_dir, label, ".vks.json"),
        circom_dir,
        build_path,
        pil_dir,
        files_dir: files_dir.to_owned(),
    }
}

fn push_text(out: &mut Vec<String>, s: &str)
    ensures
        texts(final(out)@) == texts(old(out)@).push(s@),
{
    let ghost before = out@;
    let t: String = s.to_owned();
    out.push(t);
    assert(texts(out@) =~= texts(before).push(s@));
}

/// The arguments that compile a circuit over the Goldilocks field.
pub open spec fn goldilocks_args(
    recurser_dir: Seq<char>,
    circuits_dir: Seq<char>,
    source: Seq<char>,
    out_dir: Seq<char>,
) -> Seq<Seq<char>> {
    seq![
        "--O2"@,
        "--r1cs"@,
        "--prime"@,
        "goldilocks"@,
        "--c"@,
        "--verbose"@,
        "-l"@,
        recurser_dir,
        "-l"@,
        circuits_dir,
        source,
        "-o"@,
        out_dir,
    ]
}

/// The arguments that compile a circuit over the Goldilocks field.
pub fn circom_goldilocks_args(recurser_dir: &str, circuits_dir: &str, source: &str, out_dir: &str) -> (r:
    Vec<String>)
    ensures
        texts(r@) == goldilocks_args(recurser_dir@, circuits_dir@, source@, out_dir@),
{
    let mut out: Vec<String> = Vec::new();
    push_text(&mut out, "--O2");
    push_text(&mut out, "--r1cs");
    push_text(&mut out, "--prime");
    push_text(&mut out, "goldilocks");
    push_text(&mut out, "--c");
    push_text(&mut out, "--verbose");
    push_text(&mut out, "-l");
    push_text(&mut out, recurser_dir);
    push_text(&mut out, "-l");
    push_text(&mut out, circuits_dir);
    push_text(&mut out, source);
    push_text(&mut out, "-o");
    push_text(&mut out, out_dir);
    assert(texts(out@) =~= goldilocks_args(recurser_dir@, circuits_dir@, source@, out_dir@));
    out
}

/// The arguments that compile a circuit over the BN128 field.
pub open spec fn bn128_args(
    recurser_dir: Seq<char>,
    circuits_dir: Seq<char>,
    circomlib_dir: Seq<char>,
    source: Seq<char>,
    out_dir: Seq<char>,
) -> Seq<Seq<char>> {
    seq![
        "--O1"@,
        "--r1cs"@,
        "--inspect"@,
        "--wasm"@,
        "--c"@,
        "--verbose"@,
        "-l"@,
        recurser_dir,
        "-l"@,
        circuits_dir,
        "-l"@,
        circomlib_dir,
        source,
        "-o"@,
        out_dir,
    ]
}

/// The arguments that compile a circuit over the BN128 field.
pub fn circom_bn128_args(
    recurser_dir: &str,
    circuits_dir: &str,
    circomlib_dir: &str,
    source: &str,
    out_dir: &str,
) -> (r: Vec<String>)
    ensures
        texts(r@) == bn128_args(recurser_dir@, circuits_dir@, circomlib_dir@, source@, out_dir@),
{
    let mut out: Vec<String> = Vec::new();
    push_text(&mut out, "--O1");
    push_text(&mut out, "--r1cs");
    push_text(&mut out, "--inspect");
    push_text(&mut out, "--wasm");
    push_text(&mut out, "--c");
    push_text(&mut out, "--verbose");
    push_text(&mut out, "-l");
    push_text(&mut out, recurser_dir);
    push_text(&mut out, "-l");
    push_text(&mut out, circuits_dir);
    push_text(&mut out, "-l");
    push_text(&mut out, circomlib_dir);
    push_text(&mut out, source);
    push_text(&mut out, "-o");
    push_text(&mut out, out_dir);
    assert(texts(out@) =~= bn128_args(
        recurser_dir@,
        circuits_dir@,
        circomlib_dir@,
        source@,
        out_dir@,
    ));
    out
}

/// How a PIL source is compiled.
pub struct CompilePilOptions {
    pub pil_path: String,
    pub output_path: String,
    pub search_paths: Vec<String>,
    pub fixed_dir: Option<String>,
    pub fixed_to_file: bool,
    pub no_proto_fixed_data: bool,
}

/// How the PIL source of a stage is compiled: with the standard library and the recurser's.
pub fn compile_pil(pil_path: &str, output_path: &str, std_pil_path: &str, recurser_pil_path: &str) -> (r:
    CompilePilOptions)
    ensures
        r.pil_path@ == pil_path@,
        r.output_path@ == output_path@,
        texts(r.search_paths@) == seq![std_pil_path@, recurser_pil_path@],
        r.fixed_dir is None,
        !r.fixed_to_file,
        !r.no_proto_fixed_data,
{
    let mut search_paths: Vec<String> = Vec::new();
    push_text(&mut search_paths, std_pil_path);
    push_text(&mut search_paths, recurser_pil_path);
    assert(texts(search_paths@) =~= seq![std_pil_path@, recurser_pil_path@]);
    CompilePilOptions {
        pil_path: pil_path.to_owned(),
        output_path: output_path.to_owned(),
        search_paths,
        fixed_dir: None,
        fixed_to_file: false,
        no_proto_fixed_data: false,
    }
}

/// The number of bits of a circuit's row count.
pub open spec fn log2(n: nat) -> nat
    decreases n,
{
    if n < 2 {
        0
    } else {
        1 + log2(n / 2)
    }
}

/// The power of two below the rows of an air, or what the conversion gave where the air does not
/// say.
pub fn air_bits(num_rows: usize, otherwise: usize) -> (r: usize)
    ensures
        r == if num_rows > 0 {
            log2(num_rows as nat) as int
        } else {
            otherwise as int
        },
{
    if num_rows == 0 {
        return otherwise;
    }
    let mut bits: usize = 0;
    let mut n: usize = num_rows;
    while n >= 2
        invariant
            n >= 1,
            bits + n <= num_rows,
            bits + log2(n as nat) == log2(num_rows as nat),
        decreases n,
    {
        n = n / 2;
        bits = bits + 1;
    }
    bits
}

proof fn lemma_log2(n: nat)
    requires
        n > 0,
    ensures
        vstd::arithmetic::power2::pow2(log2(n)) <= n < 2 * vstd::arithmetic::power2::pow2(log2(n)),
    decreases n,
{
    if n < 2 {
        vstd::arithmetic::power2::lemma2_to64();
    } else {
        lemma_log2(n / 2);
        vstd::arithmetic::power2::lemma_pow2_unfold(log2(n));
    }
}

/// The power of two below the rows of an air is the greatest that is not more than them.
pub proof fn law_air_bits(num_rows: nat)
    requires
        num_rows > 0,
    ensures
        vstd::arithmetic::power2::pow2(log2(num_rows)) <= num_rows,
        num_rows < vstd::arithmetic::power2::pow2(log2(num_rows) + 1),
{
    lemma_log2(num_rows);
    vstd::arithmetic::power2::lemma_pow2_unfold(log2(num_rows) + 1);
}

} // verus!
