//! The final proof system: its key, its contract, and what its stage checks first.
use vstd::arithmetic::power2::pow2;
use vstd::prelude::*;
use vstd::string::StringExecFns;

use crate::circom::templates::{capitalise, capitalised};
use crate::paths::{join, joined};
use crate::text::{dec, literal, literal_of, push_dec, str_eq};

verus! {

/// Opens the script that exports a verification key.
pub const VK_OPEN: &'static str = r#"
const snarkjs = require('snarkjs');
const fs = require('fs');
(async () => {
    const vk = await snarkjs.zKey.exportVerificationKey("#;

/// Writes the key.
pub const VK_WRITE: &'static str = r#");
    fs.writeFileSync("#;

/// Ends the script.
pub const VK_CLOSE: &'static str = r#", JSON.stringify(vk));
})().then(() => process.exit(0)).catch(e => { console.error(e); process.exit(1); });
"#;

/// Opens the script that exports a verifier contract.
pub const SOL_OPEN: &'static str = r#"
const snarkjs = require('snarkjs');
const fs = require('fs');
const path = require('path');
(async () => {
    // require.resolve('snarkjs') → .../snarkjs/build/main.cjs; go up one level
    // past 'build/' to reach the package root where templates/ lives.
    // Neither './templates/...' nor './package.json' are in the exports map so
    // require.resolve shortcuts are unavailable.
    const snarkjsRoot = path.resolve(path.dirname(require.resolve('snarkjs')), '..');
    const tmplPath = path.join(snarkjsRoot, 'templates', 'verifier_"#;

/// Reads the contract's template.
pub const SOL_TEMPLATE: &'static str = r#".sol.ejs');
    const tmpl = { "#;

/// Under the name of the proof system.
pub const SOL_READ: &'static str = r#": fs.readFileSync(tmplPath, 'utf8') };
    const sol = await snarkjs.zKey.exportSolidityVerifier("#;

/// Writes the contract.
pub const SOL_WRITE: &'static str = r#", tmpl);
    fs.writeFileSync("#;

/// Ends the script.
pub const SOL_CLOSE: &'static str = r#", sol);
})().then(() => process.exit(0)).catch(e => { console.error(e); process.exit(1); });
"#;

/// The bits of a number.
pub open spec fn bit_length(n: nat) -> nat
    decreases n,
{
    if n == 0 {
        0
    } else {
        1 + bit_length(n / 2)
    }
}

/// The power of two that a circuit's domain has: at least eight rows, and more rows than
/// constraints.
pub open spec fn power_for(n_constraints: nat) -> nat {
    if bit_length(n_constraints + 1) > 3 {
        bit_length(n_constraints + 1)
    } else {
        3
    }
}

/// The power of two that a circuit's domain has.
pub fn circuit_power(n_constraints: u64) -> (r: u64)
    requires
        n_constraints < u64::MAX,
    ensures
        r == power_for(n_constraints as nat),
{
    let mut left: u64 = n_constraints + 1;
    let mut bits: u64 = 0;
    proof {
        vstd::arithmetic::power2::lemma2_to64();
        vstd::arithmetic::power2::lemma2_to64_rest();
    }
    while left > 0
        invariant
            bits + bit_length(left as nat) == bit_length((n_constraints + 1) as nat),
            bits <= 64,
            left < pow2((64 - bits) as nat),
        decreases left,
    {
        proof {
            if bits == 64 {
                vstd::arithmetic::power2::lemma2_to64();
            }
            assert(bits < 64);
            vstd::arithmetic::power2::lemma_pow2_unfold((64 - bits) as nat);
        }
        left = left / 2;
        bits = bits + 1;
    }
    if bits > 3 {
        bits
    } else {
        3
    }
}

/// The domain of a circuit holds its constraints and one row more, and the next smaller one does
/// not, unless it has the least size.
pub proof fn law_domain_holds_the_circuit(n_constraints: nat)
    ensures
        n_constraints + 1 < pow2(power_for(n_constraints)),
        power_for(n_constraints) > 3 ==> pow2((power_for(n_constraints) - 1) as nat)
            <= n_constraints + 1,
{
    lemma_bit_length(n_constraints + 1);
    if bit_length(n_constraints + 1) <= 3 {
        vstd::arithmetic::power2::lemma2_to64();
    }
}

proof fn lemma_bit_length(n: nat)
    ensures
        n < pow2(bit_length(n)),
        n > 0 ==> bit_length(n) > 0 && pow2((bit_length(n) - 1) as nat) <= n,
        bit_length(n) <= 3 ==> n < 8,
    decreases n,
{
    vstd::arithmetic::power2::lemma2_to64();
    if n > 0 {
        lemma_bit_length(n / 2);
        vstd::arithmetic::power2::lemma_pow2_unfold(bit_length(n));
        if bit_length(n / 2) > 0 {
            vstd::arithmetic::power2::lemma_pow2_unfold(bit_length(n / 2));
        }
        reveal_with_fuel(bit_length, 4);
    }
}

/// Why the final stage cannot start.
pub enum SnarkError {
    /// No powers of tau were given.
    NoPowersOfTau,
    /// They are not where they should be.
    PowersOfTauNotFound { path: String },
    /// Generating the proving key failed.
    ZkeyFailed { final_snark: String, code: u64 },
}

impl SnarkError {
    /// What to tell the user.
    pub fn message(&self) -> (r: String)
        ensures
            r@ == match *self {
                SnarkError::NoPowersOfTau =>
                    "--powers-of-tau is required for final SNARK setup"@,
                SnarkError::PowersOfTauNotFound { path } => "powers-of-tau file not found: "@
                    + path@,
                SnarkError::ZkeyFailed { final_snark, code } => final_snark@
                    + " setup FFI call failed with return code "@ + dec(code as nat),
            },
    {
        match self {
            SnarkError::NoPowersOfTau =>
                "--powers-of-tau is required for final SNARK setup".to_owned(),
            SnarkError::PowersOfTauNotFound { path } => {
                let mut out: String = "powers-of-tau file not found: ".to_owned();
                out.append(path.as_str());
                out
            },
            SnarkError::ZkeyFailed { final_snark, code } => {
                let mut out: String = final_snark.as_str().to_owned();
                out.append(" setup FFI call failed with return code ");
                push_dec(&mut out, *code);
                out
            },
        }
    }
}

/// Check the powers of tau.
pub fn check_powers_of_tau(path: &Option<String>, found: bool) -> (r: Result<String, SnarkError>)
    ensures
        match r {
            Ok(p) => *path is Some && found && p@ == path->0@,
            Err(SnarkError::NoPowersOfTau) => *path is None,
            Err(SnarkError::PowersOfTauNotFound { path: p }) => *path is Some && !found && p@
                == path->0@,
            Err(_) => false,
        },
{
    match path {
        None => Err(SnarkError::NoPowersOfTau),
        Some(p) => if found {
            Ok(p.as_str().to_owned())
        } else {
            Err(SnarkError::PowersOfTauNotFound { path: p.as_str().to_owned() })
        },
    }
}

/// Check that the proving key was generated.
pub fn check_zkey(final_snark: &str, code: u64) -> (r: Result<(), SnarkError>)
    ensures
        match r {
            Ok(_) => code == 0,
            Err(SnarkError::ZkeyFailed { final_snark: s, code: c }) => code != 0 && c == code && s@
                == final_snark@,
            Err(_) => false,
        },
{
    if code == 0 {
        Ok(())
    } else {
        Err(SnarkError::ZkeyFailed { final_snark: final_snark.to_owned(), code })
    }
}

/// The proof systems of the final stage. Whatever is not called fflonk is plonk.
pub fn is_fflonk(final_snark: &str) -> (r: bool)
    ensures
        r == (final_snark@ == "fflonk"@),
{
    str_eq(final_snark, "fflonk")
}

/// The files of the final contract.
pub struct ContractFiles {
    /// The proof system's verifier.
    pub snark_verifier: String,
    /// The project's verifier, and its interface.
    pub verifier: String,
    pub interface: String,
}

/// The files of the final contract of a project with a capitalised name.
pub open spec fn are_contract_files(
    r: ContractFiles,
    dir: Seq<char>,
    camel: Seq<char>,
    fflonk: bool,
) -> bool {
    &&& r.snark_verifier@ == joined(
        dir,
        if fflonk {
            "FflonkVerifier.sol"@
        } else {
            "PlonkVerifier.sol"@
        },
    )
    &&& r.verifier@ == joined(dir, camel + "Verifier.sol"@)
    &&& r.interface@ == joined(dir, "I"@ + camel + "Verifier.sol"@)
}

/// The files of the final contract of a project with a capitalised name.
pub fn contract_files_for(dir: &str, camel: &str, fflonk: bool) -> (r: ContractFiles)
    ensures
        are_contract_files(r, dir@, camel@, fflonk),
{
    let mut verifier: String = camel.to_owned();
    verifier.append("Verifier.sol");
    let mut interface: String = "I".to_owned();
    interface.append(camel);
    interface.append("Verifier.sol");
    ContractFiles {
        snark_verifier: join(
            dir,
            if fflonk {
                "FflonkVerifier.sol"
            } else {
                "PlonkVerifier.sol"
            },
        ),
        verifier: join(dir, verifier.as_str()),
        interface: join(dir, interface.as_str()),
    }
}

/// The files of the final contract of a project.
pub fn contract_files(dir: &str, name: &str, fflonk: bool) -> (r: ContractFiles)
    ensures
        are_contract_files(r, dir@, capitalised(name@), fflonk),
{
    let camel: String = capitalise(name);
    contract_files_for(dir, camel.as_str(), fflonk)
}

/// The script that exports a verification key, with the literals of its paths.
pub open spec fn vk_script(zkey: Seq<char>, out: Seq<char>) -> Seq<char> {
    VK_OPEN@ + zkey + VK_WRITE@ + out + VK_CLOSE@
}

/// The script that exports a verification key, with the literals of its paths.
pub fn vk_script_for(zkey: &str, out: &str) -> (r: String)
    ensures
        r@ == vk_script(zkey@, out@),
{
    let mut s: String = VK_OPEN.to_owned();
    s.append(zkey);
    s.append(VK_WRITE);
    s.append(out);
    s.append(VK_CLOSE);
    s
}

/// The script that exports a verification key. Paths are taken from the working directory.
pub fn export_vk_script(cwd: &str, zkey_path: &str, output_path: &str) -> (r: String)
    ensures
        r@ == vk_script(
            literal(joined(cwd@, zkey_path@)),
            literal(joined(cwd@, output_path@)),
        ),
{
    let zkey: String = literal_of(absolutize(cwd, zkey_path).as_str());
    let out: String = literal_of(absolutize(cwd, output_path).as_str());
    vk_script_for(zkey.as_str(), out.as_str())
}

/// A path from the working directory.
pub fn absolutize(cwd: &str, path: &str) -> (r: String)
    ensures
        r@ == joined(cwd@, path@),
{
    join(cwd, path)
}

/// The script that exports a verifier contract, with the literals of its paths.
pub open spec fn solidity_script(
    snark_type: Seq<char>,
    zkey: Seq<char>,
    out: Seq<char>,
) -> Seq<char> {
    SOL_OPEN@ + snark_type + SOL_TEMPLATE@ + snark_type + SOL_READ@ + zkey + SOL_WRITE@ + out
        + SOL_CLOSE@
}

/// The script that exports a verifier contract, with the literals of its paths.
pub fn solidity_script_for(snark_type: &str, zkey: &str, out: &str) -> (r: String)
    ensures
        r@ == solidity_script(snark_type@, zkey@, out@),
{
    let mut s: String = SOL_OPEN.to_owned();
    s.append(snark_type);
    s.append(SOL_TEMPLATE);
    s.append(snark_type);
    s.append(SOL_READ);
    s.append(zkey);
    s.append(SOL_WRITE);
    s.append(out);
    s.append(SOL_CLOSE);
    s
}

/// The script that exports a verifier contract. Paths are taken from the working directory.
pub fn export_solidity_script(cwd: &str, zkey_path: &str, output_path: &str, snark_type: &str) -> (r:
    String)
    ensures
        r@ == solidity_script(
            snark_type@,
            literal(joined(cwd@, zkey_path@)),
            literal(joined(cwd@, output_path@)),
        ),
{
    let zkey: String = literal_of(absolutize(cwd, zkey_path).as_str());
    let out: String = literal_of(absolutize(cwd, output_path).as_str());
    solidity_script_for(snark_type, zkey.as_str(), out.as_str())
}

} // verus!
