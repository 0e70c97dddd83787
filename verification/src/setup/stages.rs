//! The stages behind recursion: the final aggregation, its compression, the bridge to BN128, and
//! the stand-alone setup of one circuit.
use vstd::prelude::*;
use vstd::string::StringExecFns;

use crate::circom::json::{join_texts, push_text, separated};
use crate::exps::emit::texts;
use crate::paths::{join, joined};
use crate::plonk2pil::packer::PlonkOptions;
use crate::setup::stage::{are_stage_files, file_path, stage_files, StageFiles};
use crate::setup::stark_struct::{generable, no_settings, StarkSettings};
use crate::text::{literal, literal_of, str_eq};

verus! {

/// A stage behind recursion.
#[derive(Clone, Copy, PartialEq, Eq, Structural, Debug)]
pub enum Stage {
    /// Aggregates the airgroups.
    Final,
    /// Compresses the aggregated proof.
    CompressedFinal,
    /// Bridges the aggregated proof to BN128.
    RecursiveF,
}

/// Which inputs the verifier in a stage's circuit takes.
#[derive(Clone, Copy, PartialEq, Eq, Structural, Debug)]
pub struct VerifierInputs {
    pub skip_main: bool,
    pub verkey_input: bool,
    pub enable_input: bool,
    pub input_challenges: bool,
}

/// The name of a stage's files.
pub open spec fn stage_name(s: Stage) -> Seq<char> {
    match s {
        Stage::Final => "vadcop_final"@,
        Stage::CompressedFinal => "vadcop_final_compressed"@,
        Stage::RecursiveF => "recursivef"@,
    }
}

/// The directory of a stage's results.
pub open spec fn stage_path(s: Stage, build_dir: Seq<char>, global_name: Seq<char>) -> Seq<char> {
    match s {
        Stage::RecursiveF => joined(joined(build_dir, "provingKeySnark"@), "recursivef"@),
        _ => joined(joined(joined(build_dir, "provingKey"@), global_name), stage_name(s)),
    }
}

/// The settings of a stage's own STARK, but for the hash, which is BN128 in the bridge and the
/// default otherwise.
pub open spec fn is_stage_settings(r: StarkSettings, s: Stage) -> bool {
    match s {
        Stage::Final => r == (StarkSettings {
            blowup_factor: Some(4usize),
            folding_factor: Some(4usize),
            pow_bits: Some(22usize),
            last_level_verification: Some(2usize),
            ..no_settings()
        }),
        Stage::CompressedFinal => r == (StarkSettings {
            blowup_factor: Some(4usize),
            folding_factor: Some(3usize),
            pow_bits: Some(22usize),
            merkle_tree_arity: Some(2usize),
            last_level_verification: Some(6usize),
            final_degree: Some(10usize),
            ..no_settings()
        }),
        Stage::RecursiveF => r.verification_hash_type is Some && r.verification_hash_type->0@
            == "BN128"@ && r == (StarkSettings {
            verification_hash_type: r.verification_hash_type,
            blowup_factor: Some(6usize),
            merkle_tree_arity: Some(4usize),
            merkle_tree_custom: Some(false),
            last_level_verification: Some(2usize),
            pow_bits: Some(19usize),
            ..no_settings()
        }),
    }
}

impl Stage {
    /// The name of the stage's files.
    pub fn name(&self) -> (r: &'static str)
        ensures
            r@ == stage_name(*self),
    {
        match self {
            Stage::Final => "vadcop_final",
            Stage::CompressedFinal => "vadcop_final_compressed",
            Stage::RecursiveF => "recursivef",
        }
    }

    /// The name that the stage's description carries.
    pub fn info_name(&self) -> (r: &'static str)
        ensures
            r@ == match *self {
                Stage::Final => "vadcop_final"@,
                Stage::CompressedFinal => "compressed_final"@,
                Stage::RecursiveF => "Recursivef"@,
            },
    {
        match self {
            Stage::Final => "vadcop_final",
            Stage::CompressedFinal => "compressed_final",
            Stage::RecursiveF => "Recursivef",
        }
    }

    /// The template of the stage's circuit.
    pub fn template(&self) -> (r: &'static str)
        ensures
            r@ == match *self {
                Stage::Final => "src/vadcop/templates/final.circom.ejs"@,
                Stage::CompressedFinal => "src/vadcop/templates/final_compressed.circom.ejs"@,
                Stage::RecursiveF => "src/recursion/templates/recursivef.circom.ejs"@,
            },
    {
        match self {
            Stage::Final => "src/vadcop/templates/final.circom.ejs",
            Stage::CompressedFinal => "src/vadcop/templates/final_compressed.circom.ejs",
            Stage::RecursiveF => "src/recursion/templates/recursivef.circom.ejs",
        }
    }

    /// Which inputs the verifier in the stage's circuit takes.
    pub fn inputs(&self) -> (r: VerifierInputs)
        ensures
            r == (VerifierInputs {
                skip_main: true,
                verkey_input: *self != Stage::CompressedFinal,
                enable_input: *self == Stage::Final,
                input_challenges: false,
            }),
    {
        VerifierInputs {
            skip_main: true,
            verkey_input: !matches!(self, Stage::CompressedFinal),
            enable_input: matches!(self, Stage::Final),
            input_challenges: false,
        }
    }

    /// How the stage's circuit is converted.
    pub fn plonk_options(&self, hash: &str) -> (r: PlonkOptions)
        ensures
            r.airgroup_name is Some,
            r.airgroup_name->0@ == match *self {
                Stage::Final => "FinalVadcop"@,
                Stage::CompressedFinal => "VadcopFinalCompressed"@,
                Stage::RecursiveF => "Recursivef"@,
            },
            r.max_constraint_degree is None,
            r.hash_id@ == hash@,
            r.merge_copies,
    {
        let name: &'static str = match self {
            Stage::Final => "FinalVadcop",
            Stage::CompressedFinal => "VadcopFinalCompressed",
            Stage::RecursiveF => "Recursivef",
        };
        PlonkOptions {
            airgroup_name: Some(name.to_owned()),
            max_constraint_degree: None,
            hash_id: hash.to_owned(),
            merge_copies: true,
        }
    }

    /// The settings of the stage's own STARK.
    pub fn settings(&self) -> (r: StarkSettings)
        ensures
            is_stage_settings(r, *self),
    {
        let mut s: StarkSettings = StarkSettings::default();
        match self {
            Stage::Final => {
                s.blowup_factor = Some(4);
                s.folding_factor = Some(4);
                s.pow_bits = Some(22);
                s.last_level_verification = Some(2);
            },
            Stage::CompressedFinal => {
                s.blowup_factor = Some(4);
                s.folding_factor = Some(3);
                s.pow_bits = Some(22);
                s.merkle_tree_arity = Some(2);
                s.last_level_verification = Some(6);
                s.final_degree = Some(10);
            },
            Stage::RecursiveF => {
                s.verification_hash_type = Some("BN128".to_owned());
                s.blowup_factor = Some(6);
                s.merkle_tree_arity = Some(4);
                s.merkle_tree_custom = Some(false);
                s.last_level_verification = Some(2);
                s.pow_bits = Some(19);
            },
        }
        s
    }

    /// The files of the stage.
    pub fn files(&self, build_dir: &str, global_name: &str) -> (r: StageFiles)
        ensures
            are_stage_files(
                r,
                build_dir@,
                stage_path(*self, build_dir@, global_name@),
                stage_name(*self),
                stage_name(*self),
                stage_name(*self),
            ),
    {
        let name: &'static str = self.name();
        let dir: String = match self {
            Stage::RecursiveF => {
                let a: String = join(build_dir, "provingKeySnark");
                join(a.as_str(), "recursivef")
            },
            _ => {
                let a: String = join(build_dir, "provingKey");
                let b: String = join(a.as_str(), global_name);
                join(b.as_str(), name)
            },
        };
        stage_files(build_dir, dir.as_str(), name, name, name)
    }
}

/// The recursive2 results of an airgroup.
pub struct AggregateFiles {
    pub starkinfo: String,
    pub verifierinfo: String,
    pub vks: String,
}

/// The directory of an airgroup's recursive2 results.
pub open spec fn aggregate_path(build_dir: Seq<char>, global_name: Seq<char>, airgroup: Seq<char>) -> Seq<
    char,
> {
    joined(
        joined(joined(joined(build_dir, "provingKey"@), global_name), airgroup),
        "recursive2"@,
    )
}

/// The recursive2 results of an airgroup.
pub fn aggregate_files(build_dir: &str, global_name: &str, airgroup: &str) -> (r: AggregateFiles)
    ensures
        r.starkinfo@ == joined(
            aggregate_path(build_dir@, global_name@, airgroup@),
            "recursive2.starkinfo.json"@,
        ),
        r.verifierinfo@ == joined(
            aggregate_path(build_dir@, global_name@, airgroup@),
            "recursive2.verifierinfo.json"@,
        ),
        r.vks@ == joined(
            aggregate_path(build_dir@, global_name@, airgroup@),
            "recursive2.vks.json"@,
        ),
{
    let a: String = join(build_dir, "provingKey");
    let b: String = join(a.as_str(), global_name);
    let c: String = join(b.as_str(), airgroup);
    let dir: String = join(c.as_str(), "recursive2");
    AggregateFiles {
        starkinfo: join(dir.as_str(), "recursive2.starkinfo.json"),
        verifierinfo: join(dir.as_str(), "recursive2.verifierinfo.json"),
        vks: join(dir.as_str(), "recursive2.vks.json"),
    }
}

/// The verifier circuit of an airgroup's aggregated proof.
pub fn aggregate_verifier(airgroup: &str) -> (r: String)
    ensures
        r@ == airgroup@ + "_recursive2.verifier.circom"@,
{
    let mut out: String = airgroup.to_owned();
    out.append("_recursive2.verifier.circom");
    out
}

/// What is wrong with what a stage starts from.
pub enum StageError {
    /// An airgroup has no recursive2 results.
    NoAggregate { airgroup: String },
    /// The description of the whole circuit is missing.
    NoGlobalInfo { path: String },
    /// It does not name the hash family.
    NoHash { path: String },
    /// It names a family that is not known.
    UnknownHash { hash: String, path: String, known: Vec<String> },
    /// A file that an earlier stage writes is missing.
    NoFile { path: String },
    /// The setup type is not known.
    BadSetupType { setup_type: String },
}

/// Texts as literals.
pub open spec fn literals(v: Seq<Seq<char>>) -> Seq<Seq<char>> {
    Seq::new(v.len(), |i: int| literal(v[i]))
}

fn literals_of(v: &Vec<String>) -> (r: Vec<String>)
    ensures
        texts(r@) == literals(texts(v@)),
{
    let ghost all = literals(texts(v@));
    let mut out: Vec<String> = Vec::new();
    let mut i: usize = 0;
    assert(texts(out@) =~= all.take(0));
    while i < v.len()
        invariant
            i <= v@.len(),
            all == literals(texts(v@)),
            texts(out@) == all.take(i as int),
        decreases v@.len() - i,
    {
        push_text(&mut out, literal_of(v[i].as_str()));
        i = i + 1;
        assert(all.take(i as int) =~= all.take(i - 1).push(all[i - 1]));
    }
    assert(all.take(i as int) =~= all);
    out
}

fn copied_texts(v: &Vec<String>) -> (r: Vec<String>)
    ensures
        texts(r@) == texts(v@),
{
    let mut out: Vec<String> = Vec::new();
    let mut i: usize = 0;
    assert(texts(out@) =~= texts(v@).take(0));
    while i < v.len()
        invariant
            i <= v@.len(),
            texts(out@) == texts(v@).take(i as int),
        decreases v@.len() - i,
    {
        push_text(&mut out, v[i].as_str().to_owned());
        i = i + 1;
        assert(texts(v@).take(i as int) =~= texts(v@).take(i - 1).push(texts(v@)[i - 1]));
    }
    assert(texts(v@).take(i as int) =~= texts(v@));
    out
}

/// Whether the text is one of the list.
fn is_listed(v: &Vec<String>, s: &str) -> (r: bool)
    ensures
        r == texts(v@).contains(s@),
{
    let mut i: usize = 0;
    while i < v.len()
        invariant
            i <= v@.len(),
            forall|j: int| 0 <= j < i ==> #[trigger] v@[j]@ != s@,
        decreases v@.len() - i,
    {
        if str_eq(v[i].as_str(), s) {
            assert(texts(v@)[i as int] == s@);
            return true;
        }
        i = i + 1;
    }
    proof {
        if texts(v@).contains(s@) {
            let j = choose|j: int| 0 <= j < v@.len() && texts(v@)[j] == s@;
            assert(v@[j]@ == s@);
        }
    }
    false
}

impl StageError {
    /// What to tell the user.
    pub fn message(&self) -> (r: String)
        ensures
            r@ == match *self {
                StageError::NoAggregate { airgroup } =>
                    "Recursive2 artifacts not found for airgroup '"@ + airgroup@
                    + "'. Run recursive setup first."@,
                StageError::NoGlobalInfo { path } => "Global info file not found: "@ + literal(path@)
                    + ". Run `setup --recursive` first."@,
                StageError::NoHash { path } => "'hash' missing from "@ + literal(path@)
                    + "; re-run `setup --recursive`"@,
                StageError::UnknownHash { hash, path, known } => "unknown hash family "@ + literal(
                    hash@,
                ) + " in "@ + literal(path@) + "; known: ["@ + separated(
                    literals(texts(known@)),
                    ", "@,
                ) + "]"@,
                StageError::NoFile { path } => "Required file not found: "@ + literal(path@)
                    + ". Run `setup --recursive` first."@,
                StageError::BadSetupType { setup_type } => "Invalid setup type '"@ + setup_type@
                    + "'. Must be one of: compressor, aggregation"@,
            },
    {
        match self {
            StageError::NoAggregate { airgroup } => {
                let mut out: String = "Recursive2 artifacts not found for airgroup '".to_owned();
                out.append(airgroup.as_str());
                out.append("'. Run recursive setup first.");
                out
            },
            StageError::NoGlobalInfo { path } => {
                let mut out: String = "Global info file not found: ".to_owned();
                out.append(literal_of(path.as_str()).as_str());
                out.append(". Run `setup --recursive` first.");
                out
            },
            StageError::NoHash { path } => {
                let mut out: String = "'hash' missing from ".to_owned();
                out.append(literal_of(path.as_str()).as_str());
                out.append("; re-run `setup --recursive`");
                out
            },
            StageError::UnknownHash { hash, path, known } => {
                let mut out: String = "unknown hash family ".to_owned();
                out.append(literal_of(hash.as_str()).as_str());
                out.append(" in ");
                out.append(literal_of(path.as_str()).as_str());
                out.append("; known: [");
                let names: Vec<String> = literals_of(known);
                out.append(join_texts(&names, ", ").as_str());
                out.append("]");
                out
            },
            StageError::NoFile { path } => {
                let mut out: String = "Required file not found: ".to_owned();
                out.append(literal_of(path.as_str()).as_str());
                out.append(". Run `setup --recursive` first.");
                out
            },
            StageError::BadSetupType { setup_type } => {
                let mut out: String = "Invalid setup type '".to_owned();
                out.append(setup_type.as_str());
                out.append("'. Must be one of: compressor, aggregation");
                out
            },
        }
    }
}

/// Check that an airgroup has its recursive2 results.
pub fn check_aggregate(airgroup: &str, starkinfo: bool, verifierinfo: bool, vks: bool) -> (r: Result<
    (),
    StageError,
>)
    ensures
        match r {
            Ok(_) => starkinfo && verifierinfo && vks,
            Err(StageError::NoAggregate { airgroup: a }) => !(starkinfo && verifierinfo && vks)
                && a@ == airgroup@,
            Err(_) => false,
        },
{
    if starkinfo && verifierinfo && vks {
        Ok(())
    } else {
        Err(StageError::NoAggregate { airgroup: airgroup.to_owned() })
    }
}

/// The name of an airgroup in the description of the whole circuit.
pub fn aggregate_name(name: &Option<String>) -> (r: String)
    ensures
        r@ == match *name {
            Some(n) => n@,
            None => "unnamed"@,
        },
{
    match name {
        Some(n) => n.as_str().to_owned(),
        None => "unnamed".to_owned(),
    }
}

/// What the stand-alone compression of the final stage is run on.
pub struct SetupCompressedFinalOptions {
    /// The directory of the setup whose final stage is compressed.
    pub build_dir: String,
}

/// The files that the stand-alone compression starts from.
pub struct CompressedInputs {
    pub global_info: String,
    pub verkey: String,
    pub starkinfo: String,
    pub verifierinfo: String,
}

/// The files that the stand-alone compression starts from.
pub open spec fn are_compressed_inputs(
    r: CompressedInputs,
    build_dir: Seq<char>,
    global_name: Seq<char>,
) -> bool {
    let dir = stage_path(Stage::Final, build_dir, global_name);
    &&& r.global_info@ == joined(joined(build_dir, "provingKey"@), "pilout.globalInfo.json"@)
    &&& r.verkey@ == file_path(dir, "vadcop_final"@, ".verkey.json"@)
    &&& r.starkinfo@ == file_path(dir, "vadcop_final"@, ".starkinfo.json"@)
    &&& r.verifierinfo@ == file_path(dir, "vadcop_final"@, ".verifierinfo.json"@)
}

/// The files that the stand-alone compression starts from.
pub fn compressed_inputs(opts: &SetupCompressedFinalOptions, global_name: &str) -> (r:
    CompressedInputs)
    ensures
        are_compressed_inputs(r, opts.build_dir@, global_name@),
{
    let key_dir: String = join(opts.build_dir.as_str(), "provingKey");
    let f: StageFiles = Stage::Final.files(opts.build_dir.as_str(), global_name);
    CompressedInputs {
        global_info: join(key_dir.as_str(), "pilout.globalInfo.json"),
        verkey: f.verkey_json,
        starkinfo: f.starkinfo,
        verifierinfo: f.verifierinfo,
    }
}

/// What was found of the files that the stand-alone compression starts from.
#[derive(Clone, Copy, PartialEq, Eq, Structural, Debug)]
pub struct InputsFound {
    pub global_info: bool,
    pub verkey: bool,
    pub starkinfo: bool,
    pub verifierinfo: bool,
}

/// Check that the stand-alone compression can start: the whole circuit is described, names a
/// known hash family, and the final stage was run. The first thing missing is reported.
pub fn check_compressed_inputs(
    inputs: &CompressedInputs,
    found: InputsFound,
    hash: &Option<String>,
    known: &Vec<String>,
) -> (r: Result<String, StageError>)
    ensures
        match r {
            Ok(h) => found.global_info && *hash is Some && texts(known@).contains(h@)
                && found.verkey && found.starkinfo && found.verifierinfo && h@ == hash->0@,
            Err(StageError::NoGlobalInfo { path }) => !found.global_info && path@
                == inputs.global_info@,
            Err(StageError::NoHash { path }) => found.global_info && *hash is None && path@
                == inputs.global_info@,
            Err(StageError::UnknownHash { hash: h, path, known: k }) => found.global_info && *hash
                is Some && !texts(known@).contains(h@) && h@ == hash->0@ && path@
                == inputs.global_info@ && texts(k@) == texts(known@),
            Err(StageError::NoFile { path }) => found.global_info && *hash is Some && texts(
                known@,
            ).contains(hash->0@) && path@ == if !found.verkey {
                inputs.verkey@
            } else if !found.starkinfo {
                inputs.starkinfo@
            } else {
                inputs.verifierinfo@
            } && !(found.verkey && found.starkinfo && found.verifierinfo),
            Err(_) => false,
        },
{
    if !found.global_info {
        return Err(
            StageError::NoGlobalInfo { path: inputs.global_info.as_str().to_owned() },
        );
    }
    match hash {
        None => Err(StageError::NoHash { path: inputs.global_info.as_str().to_owned() }),
        Some(h) => {
            if !is_listed(known, h.as_str()) {
                return Err(
                    StageError::UnknownHash {
                        hash: h.as_str().to_owned(),
                        path: inputs.global_info.as_str().to_owned(),
                        known: copied_texts(known),
                    },
                );
            }
            if !found.verkey {
                return Err(StageError::NoFile { path: inputs.verkey.as_str().to_owned() });
            }
            if !found.starkinfo {
                return Err(StageError::NoFile { path: inputs.starkinfo.as_str().to_owned() });
            }
            if !found.verifierinfo {
                return Err(StageError::NoFile { path: inputs.verifierinfo.as_str().to_owned() });
            }
            Ok(h.as_str().to_owned())
        },
    }
}

/// The name that every result of the stand-alone setup of one circuit carries.
pub const TEST_NAME: &'static str = "Compressor";

/// The stand-alone setup of one circuit: how it is converted, and its files.
pub struct TestSetup {
    pub options: PlonkOptions,
    pub files: StageFiles,
    pub settings: StarkSettings,
}

/// The directory of the results of the stand-alone setup of one circuit.
pub open spec fn test_path(build_dir: Seq<char>) -> Seq<char> {
    joined(
        joined(
            joined(
                joined(joined(joined(build_dir, "provingKey"@), "build"@), TEST_NAME@),
                "airs"@,
            ),
            TEST_NAME@,
        ),
        "air"@,
    )
}

/// The stand-alone setup of one circuit, or the error where the setup type is not known.
pub fn test_setup(build_dir: &str, circom_name: &str, setup_type: &str, hash: &str) -> (r: Result<
    TestSetup,
    StageError,
>)
    ensures
        match r {
            Ok(t) => {
                &&& setup_type@ == "compressor"@ || setup_type@ == "aggregation"@
                &&& t.options.airgroup_name is Some
                &&& t.options.airgroup_name->0@ == TEST_NAME@
                &&& t.options.max_constraint_degree == if setup_type@ == "compressor"@ {
                    Some(5usize)
                } else {
                    None::<usize>
                }
                &&& t.options.hash_id@ == hash@
                &&& t.options.merge_copies
                &&& are_stage_files(
                    t.files,
                    build_dir@,
                    test_path(build_dir@),
                    circom_name@,
                    TEST_NAME@,
                    TEST_NAME@,
                )
                &&& t.settings == (StarkSettings {
                    blowup_factor: Some(3usize),
                    last_level_verification: Some(1usize),
                    ..no_settings()
                })
            },
            Err(StageError::BadSetupType { setup_type: s }) => setup_type@ != "compressor"@
                && setup_type@ != "aggregation"@ && s@ == setup_type@,
            Err(_) => false,
        },
{
    let compressor: bool = str_eq(setup_type, "compressor");
    if !compressor && !str_eq(setup_type, "aggregation") {
        return Err(StageError::BadSetupType { setup_type: setup_type.to_owned() });
    }
    let a: String = join(build_dir, "provingKey");
    let b: String = join(a.as_str(), "build");
    let c: String = join(b.as_str(), TEST_NAME);
    let d: String = join(c.as_str(), "airs");
    let e: String = join(d.as_str(), TEST_NAME);
    let dir: String = join(e.as_str(), "air");
    let mut settings: StarkSettings = StarkSettings::default();
    settings.blowup_factor = Some(3);
    settings.last_level_verification = Some(1);
    Ok(
        TestSetup {
            options: PlonkOptions {
                airgroup_name: Some(TEST_NAME.to_owned()),
                max_constraint_degree: if compressor {
                    Some(5)
                } else {
                    None
                },
                hash_id: hash.to_owned(),
                merge_copies: true,
            },
            files: stage_files(build_dir, dir.as_str(), circom_name, TEST_NAME, TEST_NAME),
            settings,
        },
    )
}

/// Every stage has settings that a STARK can be generated from, whatever the size of its circuit.
pub proof fn law_stages_can_be_generated(s: Stage, r: StarkSettings, n_bits: usize)
    requires
        is_stage_settings(r, s),
        n_bits <= usize::MAX - 6,
    ensures
        generable(r, n_bits),
{
}

} // verus!
