//! The steps of setting up a circuit, from its source to its verification key: which are taken,
//! in which order, and what follows from the size that a circuit comes out in.
use vstd::prelude::*;

use crate::setup::recursive::{
    can_size, size_decision, size_decision_of, NeedsCompressorError, RecursiveTemplate,
    RecursiveTooSmallError, SizeDecision,
};
use crate::setup::stages::Stage;

verus! {

/// A circuit to be set up.
#[derive(Clone, Copy, PartialEq, Eq, Structural, Debug)]
pub enum Job {
    /// A circuit of the recursion over airs.
    Recursive {
        template: RecursiveTemplate,
        has_compressor: bool,
        /// The caller builds the witness library later.
        deferred: bool,
        /// The description of an earlier circuit is shared.
        described: bool,
        /// The description of the verified circuit is written back when its queries change.
        writes_back: bool,
    },
    /// A stage behind recursion.
    Behind(Stage),
    /// A circuit on its own, whose source is given.
    Standalone,
}

/// One step of a setup.
#[derive(Clone, Copy, PartialEq, Eq, Structural, Debug)]
pub enum Step {
    /// Write the description of the verified circuit, with more queries, back to its file.
    WriteBack,
    /// Write the sources of the verifiers and of the circuit.
    Generate,
    /// Compile the circuit.
    Compile,
    /// Copy the witness data, where the compiler wrote it, beside the results.
    CopyWitnessData,
    /// Build the witness library in the background.
    BuildWitness,
    /// Leave the witness library to the caller.
    DeferWitness,
    /// Read the R1CS and convert it into a trace.
    Convert,
    /// Write the fixed columns.
    WriteFixed,
    /// Write the PIL source.
    WritePil,
    /// Write the execution buffer.
    WriteExec,
    /// Compile the PIL.
    CompilePil,
    /// Write the constants of the compiled PIL.
    WriteConstants,
    /// Describe the STARK of the compiled PIL.
    Describe,
    /// Write the description of the STARK.
    WriteStarkinfo,
    /// Write the descriptions of its expressions and of its verifier.
    WriteDescriptions,
    /// Write both in binary.
    WriteBinaries,
    /// Hash the constants into the verification key, and write it as JSON.
    HashConstants,
    /// Write the verification key in binary.
    WriteKey,
    /// Remove the description of the STARK again.
    RemoveStarkinfo,
    /// Write the verification keys of the airgroup.
    WriteKeys,
    /// Write the source of the verifier.
    WriteVerifier,
    /// Wait for the witness libraries.
    AwaitWitness,
    /// Describe the whole circuit.
    WriteGlobalInfo,
}

/// The steps from the source to the converted circuit.
pub open spec fn source_steps(job: Job) -> Seq<Step> {
    (if job is Standalone {
        Seq::empty()
    } else {
        seq![Step::Generate]
    }) + seq![Step::Compile, Step::CopyWitnessData] + (if job is Recursive {
        Seq::empty()
    } else {
        seq![Step::BuildWitness]
    }) + seq![Step::Convert]
}

/// The descriptions that a circuit of the recursion keeps: recursive1 shares those of the others.
pub open spec fn kept_steps(template: RecursiveTemplate) -> Seq<Step> {
    if template == RecursiveTemplate::Recursive1 {
        Seq::empty()
    } else {
        seq![Step::WriteDescriptions, Step::WriteBinaries]
    }
}

/// The last steps of a circuit of the recursion.
pub open spec fn last_steps(template: RecursiveTemplate) -> Seq<Step> {
    match template {
        RecursiveTemplate::Compressor => Seq::empty(),
        RecursiveTemplate::Recursive1 => seq![Step::RemoveStarkinfo],
        RecursiveTemplate::Recursive2 => seq![Step::WriteKeys, Step::WriteVerifier],
    }
}

/// The steps from the converted circuit to its verification key.
pub open spec fn result_steps(job: Job) -> Seq<Step> {
    match job {
        Job::Recursive { template, has_compressor, deferred, described, writes_back } => seq![
            if deferred {
                Step::DeferWitness
            } else {
                Step::BuildWitness
            },
            Step::WriteFixed,
            Step::WritePil,
            Step::WriteExec,
            Step::CompilePil,
        ] + (if described {
            seq![Step::WriteConstants, Step::WriteStarkinfo] + kept_steps(template)
        } else {
            seq![Step::Describe, Step::WriteStarkinfo] + kept_steps(template) + seq![
                Step::WriteConstants,
            ]
        }) + seq![Step::HashConstants, Step::WriteKey] + last_steps(template),
        Job::Behind(Stage::Final) => seq![
            Step::WriteFixed,
            Step::WritePil,
            Step::CompilePil,
            Step::WriteExec,
            Step::Describe,
            Step::WriteStarkinfo,
            Step::WriteDescriptions,
            Step::WriteBinaries,
            Step::WriteVerifier,
            Step::WriteConstants,
            Step::HashConstants,
            Step::WriteKey,
            Step::AwaitWitness,
        ],
        Job::Behind(Stage::CompressedFinal) => seq![
            Step::WriteFixed,
            Step::WritePil,
            Step::CompilePil,
            Step::WriteExec,
            Step::Describe,
            Step::WriteStarkinfo,
            Step::WriteDescriptions,
            Step::WriteBinaries,
            Step::WriteConstants,
            Step::HashConstants,
            Step::WriteKey,
            Step::WriteVerifier,
            Step::AwaitWitness,
        ],
        Job::Behind(Stage::RecursiveF) => seq![
            Step::WriteFixed,
            Step::WritePil,
            Step::WriteExec,
            Step::CompilePil,
            Step::Describe,
            Step::WriteStarkinfo,
            Step::WriteDescriptions,
            Step::WriteConstants,
            Step::HashConstants,
            Step::WriteKey,
            Step::WriteBinaries,
        ],
        Job::Standalone => seq![
            Step::WriteFixed,
            Step::WritePil,
            Step::WriteExec,
            Step::CompilePil,
            Step::Describe,
            Step::WriteStarkinfo,
            Step::WriteDescriptions,
            Step::WriteConstants,
            Step::HashConstants,
            Step::WriteKey,
            Step::WriteBinaries,
            Step::AwaitWitness,
            Step::WriteGlobalInfo,
        ],
    }
}

/// The steps from the source to the converted circuit.
pub fn first_steps(job: Job) -> (r: Vec<Step>)
    ensures
        r@ == source_steps(job),
{
    let mut v: Vec<Step> = Vec::new();
    match job {
        Job::Standalone => {},
        _ => {
            v.push(Step::Generate);
        },
    }
    v.push(Step::Compile);
    v.push(Step::CopyWitnessData);
    match job {
        Job::Recursive { .. } => {},
        _ => {
            v.push(Step::BuildWitness);
        },
    }
    v.push(Step::Convert);
    assert(v@ =~= source_steps(job));
    v
}

fn push_kept(v: &mut Vec<Step>, template: RecursiveTemplate)
    ensures
        final(v)@ == old(v)@ + kept_steps(template),
{
    match template {
        RecursiveTemplate::Recursive1 => {},
        _ => {
            v.push(Step::WriteDescriptions);
            v.push(Step::WriteBinaries);
        },
    }
    assert(v@ =~= old(v)@ + kept_steps(template));
}

fn recursive_steps(template: RecursiveTemplate, deferred: bool, described: bool) -> (r: Vec<Step>)
    ensures
        forall|c: bool, w: bool|
            r@ == #[trigger] result_steps(
                Job::Recursive { template, has_compressor: c, deferred, described, writes_back: w },
            ),
{
    let mut v: Vec<Step> = Vec::new();
    if deferred {
        v.push(Step::DeferWitness);
    } else {
        v.push(Step::BuildWitness);
    }
    v.push(Step::WriteFixed);
    v.push(Step::WritePil);
    v.push(Step::WriteExec);
    v.push(Step::CompilePil);
    if described {
        v.push(Step::WriteConstants);
        v.push(Step::WriteStarkinfo);
        push_kept(&mut v, template);
    } else {
        v.push(Step::Describe);
        v.push(Step::WriteStarkinfo);
        push_kept(&mut v, template);
        v.push(Step::WriteConstants);
    }
    v.push(Step::HashConstants);
    v.push(Step::WriteKey);
    match template {
        RecursiveTemplate::Compressor => {},
        RecursiveTemplate::Recursive1 => {
            v.push(Step::RemoveStarkinfo);
        },
        RecursiveTemplate::Recursive2 => {
            v.push(Step::WriteKeys);
            v.push(Step::WriteVerifier);
        },
    }
    proof {
        assert forall|c: bool, w: bool|
            v@ == #[trigger] result_steps(
                Job::Recursive { template, has_compressor: c, deferred, described, writes_back: w },
            ) by {
            assert(v@ =~= result_steps(
                Job::Recursive { template, has_compressor: c, deferred, described, writes_back: w },
            ));
        }
    }
    v
}

/// The steps from the converted circuit to its verification key.
fn steps_to_key(job: Job) -> (r: Vec<Step>)
    ensures
        r@ == result_steps(job),
{
    match job {
        Job::Recursive { template, has_compressor, deferred, described, writes_back } => {
            let v: Vec<Step> = recursive_steps(template, deferred, described);
            assert(v@ == result_steps(
                Job::Recursive { template, has_compressor, deferred, described, writes_back },
            ));
            v
        },
        Job::Behind(Stage::Final) => vec![
            Step::WriteFixed,
            Step::WritePil,
            Step::CompilePil,
            Step::WriteExec,
            Step::Describe,
            Step::WriteStarkinfo,
            Step::WriteDescriptions,
            Step::WriteBinaries,
            Step::WriteVerifier,
            Step::WriteConstants,
            Step::HashConstants,
            Step::WriteKey,
            Step::AwaitWitness,
        ],
        Job::Behind(Stage::CompressedFinal) => vec![
            Step::WriteFixed,
            Step::WritePil,
            Step::CompilePil,
            Step::WriteExec,
            Step::Describe,
            Step::WriteStarkinfo,
            Step::WriteDescriptions,
            Step::WriteBinaries,
            Step::WriteConstants,
            Step::HashConstants,
            Step::WriteKey,
            Step::WriteVerifier,
            Step::AwaitWitness,
        ],
        Job::Behind(Stage::RecursiveF) => vec![
            Step::WriteFixed,
            Step::WritePil,
            Step::WriteExec,
            Step::CompilePil,
            Step::Describe,
            Step::WriteStarkinfo,
            Step::WriteDescriptions,
            Step::WriteConstants,
            Step::HashConstants,
            Step::WriteKey,
            Step::WriteBinaries,
        ],
        Job::Standalone => vec![
            Step::WriteFixed,
            Step::WritePil,
            Step::WriteExec,
            Step::CompilePil,
            Step::Describe,
            Step::WriteStarkinfo,
            Step::WriteDescriptions,
            Step::WriteConstants,
            Step::HashConstants,
            Step::WriteKey,
            Step::WriteBinaries,
            Step::AwaitWitness,
            Step::WriteGlobalInfo,
        ],
    }
}

/// What follows a conversion.
pub enum AfterConversion {
    /// The circuit keeps its size: these steps are left.
    GoOn(Vec<Step>),
    /// The verified circuit gets more queries, and the circuit is made and converted again.
    Again { n_queries: u64, steps: Vec<Step> },
    /// The circuit needs a compressor in front.
    NeedsCompressor(NeedsCompressorError),
    /// The compressor in front needs more queries.
    TooSmall(RecursiveTooSmallError),
}

/// The sizing of a circuit can be computed.
pub open spec fn conversion_ok(
    job: Job,
    resized: bool,
    n_bits: usize,
    n_used: usize,
    n_queries: u64,
) -> bool {
    match job {
        Job::Recursive { template, has_compressor, .. } => resized || can_size(
            template,
            has_compressor,
            n_bits,
            n_used,
            n_queries,
        ),
        _ => true,
    }
}

/// The size of a circuit is decided on once, and only where it is of the recursion.
pub open spec fn decision_of(
    job: Job,
    resized: bool,
    n_bits: usize,
    n_used: usize,
    n_queries: u64,
) -> SizeDecision {
    match job {
        Job::Recursive { template, has_compressor, .. } => if resized {
            SizeDecision::Keep
        } else {
            size_decision_of(template, has_compressor, n_bits, n_used, n_queries)
        },
        _ => SizeDecision::Keep,
    }
}

/// The steps that make a circuit again.
pub open spec fn steps_again(job: Job) -> Seq<Step> {
    (if job matches Job::Recursive { writes_back: true, .. } {
        seq![Step::WriteBack]
    } else {
        Seq::empty()
    }) + source_steps(job)
}

/// What follows a conversion that gave a circuit of `2^n_bits` rows, `n_used` of them used.
/// `resized` says that it was made again; `n_queries` is zero where it is not known.
pub fn after_conversion(job: Job, resized: bool, n_bits: usize, n_used: usize, n_queries: u64) -> (r:
    AfterConversion)
    requires
        conversion_ok(job, resized, n_bits, n_used, n_queries),
    ensures
        match decision_of(job, resized, n_bits, n_used, n_queries) {
            SizeDecision::Keep => r matches AfterConversion::GoOn(v) && v@ == result_steps(job),
            SizeDecision::Adjust { n_queries: wanted } => r matches AfterConversion::Again {
                n_queries: q,
                steps,
            } && q == wanted && steps@ == steps_again(job),
            SizeDecision::NeedsCompressor(e) => r == AfterConversion::NeedsCompressor(e),
            SizeDecision::TooSmall(e) => r == AfterConversion::TooSmall(e),
        },
{
    let decision: SizeDecision = match job {
        Job::Recursive { template, has_compressor, .. } => if resized {
            SizeDecision::Keep
        } else {
            size_decision(template, has_compressor, n_bits, n_used, n_queries)
        },
        _ => SizeDecision::Keep,
    };
    match decision {
        SizeDecision::Keep => AfterConversion::GoOn(steps_to_key(job)),
        SizeDecision::Adjust { n_queries: wanted } => {
            let mut steps: Vec<Step> = Vec::new();
            match job {
                Job::Recursive { writes_back: true, .. } => {
                    steps.push(Step::WriteBack);
                },
                _ => {},
            }
            let mut again: Vec<Step> = first_steps(job);
            steps.append(&mut again);
            assert(steps@ =~= steps_again(job));
            AfterConversion::Again { n_queries: wanted, steps }
        },
        SizeDecision::NeedsCompressor(e) => AfterConversion::NeedsCompressor(e),
        SizeDecision::TooSmall(e) => AfterConversion::TooSmall(e),
    }
}

/// All steps of a circuit that keeps its size.
pub open spec fn all_steps(job: Job) -> Seq<Step> {
    source_steps(job) + result_steps(job)
}

/// A circuit is made again at most once: one that was goes on, whatever its size.
pub proof fn law_resized_once(job: Job, n_bits: usize, n_used: usize, n_queries: u64)
    ensures
        decision_of(job, true, n_bits, n_used, n_queries) == SizeDecision::Keep,
{
}

/// The place of a step among all steps of a circuit, where it is one of them.
pub open spec fn place(job: Job, s: Step) -> int {
    match job {
        Job::Recursive { template, described, .. } => {
            let kept: int = if template == RecursiveTemplate::Recursive1 {
                0
            } else {
                2
            };
            let hash: int = if described {
                11 + kept
            } else {
                12 + kept
            };
            match s {
                Step::Generate => 0,
                Step::Compile => 1,
                Step::CopyWitnessData => 2,
                Step::Convert => 3,
                Step::BuildWitness => 4,
                Step::DeferWitness => 4,
                Step::WriteFixed => 5,
                Step::WritePil => 6,
                Step::WriteExec => 7,
                Step::CompilePil => 8,
                Step::Describe => 9,
                Step::WriteStarkinfo => 10,
                Step::WriteDescriptions => 11,
                Step::WriteBinaries => 12,
                Step::WriteConstants => if described {
                    9
                } else {
                    11 + kept
                },
                Step::HashConstants => hash,
                Step::WriteKey => hash + 1,
                Step::RemoveStarkinfo => hash + 2,
                Step::WriteKeys => hash + 2,
                Step::WriteVerifier => hash + 3,
                _ => -1,
            }
        },
        _ => {
            let first: int = if job is Standalone {
                0
            } else {
                1
            };
            let late = job == Job::Behind(Stage::RecursiveF) || job is Standalone;
            let inner: int = if job == Job::Behind(Stage::Final) {
                1
            } else {
                0
            };
            match s {
                Step::Generate => 0,
                Step::Compile => first,
                Step::CopyWitnessData => first + 1,
                Step::BuildWitness => first + 2,
                Step::Convert => first + 3,
                Step::WriteFixed => first + 4,
                Step::WritePil => first + 5,
                Step::WriteExec => if late {
                    first + 6
                } else {
                    first + 7
                },
                Step::CompilePil => if late {
                    first + 7
                } else {
                    first + 6
                },
                Step::Describe => first + 8,
                Step::WriteStarkinfo => first + 9,
                Step::WriteDescriptions => first + 10,
                Step::WriteBinaries => if late {
                    first + 14
                } else {
                    first + 11
                },
                Step::WriteConstants => if late {
                    first + 11
                } else {
                    first + 12 + inner
                },
                Step::HashConstants => if late {
                    first + 12
                } else {
                    first + 13 + inner
                },
                Step::WriteKey => if late {
                    first + 13
                } else {
                    first + 14 + inner
                },
                Step::WriteVerifier => if inner == 1 {
                    first + 12
                } else {
                    first + 15
                },
                Step::AwaitWitness => if late {
                    first + 15
                } else {
                    first + 16
                },
                Step::WriteGlobalInfo => first + 16,
                _ => -1,
            }
        },
    }
}

proof fn lemma_places(job: Job, i: int)
    requires
        0 <= i < all_steps(job).len(),
    ensures
        place(job, all_steps(job)[i]) == i,
{
    let v = all_steps(job);
    match job {
        Job::Recursive { template, deferred, described, .. } => {
            match template {
                RecursiveTemplate::Compressor => {},
                RecursiveTemplate::Recursive1 => {},
                RecursiveTemplate::Recursive2 => {},
            }
        },
        Job::Behind(Stage::Final) => {},
        Job::Behind(Stage::CompressedFinal) => {},
        Job::Behind(Stage::RecursiveF) => {},
        Job::Standalone => {},
    }
}

/// No step of a setup is taken twice, unless the circuit is made again.
pub proof fn law_steps_are_taken_once(job: Job, i: int, j: int)
    requires
        0 <= i < all_steps(job).len(),
        0 <= j < all_steps(job).len(),
        all_steps(job)[i] == all_steps(job)[j],
    ensures
        i == j,
{
    lemma_places(job, i);
    lemma_places(job, j);
}

/// The step `a` takes what the step `b` leaves.
pub open spec fn takes(a: Step, b: Step) -> bool {
    match a {
        Step::Compile => b == Step::Generate,
        Step::CopyWitnessData | Step::BuildWitness | Step::Convert => b == Step::Compile,
        Step::DeferWitness | Step::WriteFixed | Step::WritePil | Step::WriteExec => b
            == Step::Convert,
        Step::CompilePil => b == Step::WritePil,
        Step::WriteConstants => b == Step::WriteFixed || b == Step::CompilePil,
        Step::Describe => b == Step::CompilePil,
        Step::WriteStarkinfo | Step::WriteDescriptions | Step::WriteVerifier => b == Step::Describe,
        Step::WriteBinaries => b == Step::Describe || b == Step::WriteStarkinfo,
        Step::HashConstants => b == Step::WriteConstants || b == Step::WriteStarkinfo,
        Step::WriteKey | Step::WriteKeys => b == Step::HashConstants,
        Step::RemoveStarkinfo => b == Step::HashConstants || b == Step::WriteStarkinfo,
        Step::AwaitWitness => b == Step::BuildWitness,
        Step::WriteGlobalInfo => b == Step::CompilePil,
        _ => false,
    }
}

/// Every step comes after those whose results it takes.
pub proof fn law_steps_are_in_order(job: Job, i: int, j: int)
    requires
        0 <= i < all_steps(job).len(),
        0 <= j < all_steps(job).len(),
        takes(all_steps(job)[i], all_steps(job)[j]),
    ensures
        j < i,
{
    lemma_places(job, i);
    lemma_places(job, j);
}

/// The key of every circuit is hashed from constants and a description that are there: both are
/// written, and the description is not removed before.
pub proof fn law_key_is_of_what_was_written(job: Job)
    ensures
        all_steps(job).contains(Step::WriteConstants),
        all_steps(job).contains(Step::WriteStarkinfo),
        all_steps(job).contains(Step::HashConstants),
        all_steps(job).contains(Step::WriteKey),
        all_steps(job).contains(Step::RemoveStarkinfo) ==> place(job, Step::RemoveStarkinfo)
            > place(job, Step::HashConstants),
        forall|i: int|
            0 <= i < all_steps(job).len() ==> place(job, #[trigger] all_steps(job)[i]) == i,
{
    let v = all_steps(job);
    assert forall|i: int| 0 <= i < v.len() implies place(job, #[trigger] v[i]) == i by {
        lemma_places(job, i);
    }
    assert(v[place(job, Step::WriteConstants)] == Step::WriteConstants);
    assert(v[place(job, Step::WriteStarkinfo)] == Step::WriteStarkinfo);
    assert(v[place(job, Step::HashConstants)] == Step::HashConstants);
    assert(v[place(job, Step::WriteKey)] == Step::WriteKey);
}

/// Every circuit gets a witness library, or leaves it to its caller, and never both.
pub proof fn law_one_witness_library(job: Job)
    ensures
        all_steps(job).contains(Step::BuildWitness) != all_steps(job).contains(Step::DeferWitness),
        all_steps(job).contains(Step::DeferWitness) == (job matches Job::Recursive {
            deferred: true,
            ..
        }),
{
    let v = all_steps(job);
    assert forall|i: int| 0 <= i < v.len() implies place(job, #[trigger] v[i]) == i by {
        lemma_places(job, i);
    }
    let at = place(job, Step::BuildWitness);
    assert(v[at] == Step::BuildWitness || v[at] == Step::DeferWitness);
    assert(v.contains(v[at]));
}

/// Recursive1 keeps no description of its own: it writes neither descriptions nor binaries, and
/// removes what it wrote. Every other circuit keeps its descriptions.
pub proof fn law_recursive1_keeps_no_description(job: Job)
    ensures
        ({
            let first = job matches Job::Recursive {
                template: RecursiveTemplate::Recursive1,
                ..
            };
            &&& all_steps(job).contains(Step::RemoveStarkinfo) == first
            &&& all_steps(job).contains(Step::WriteDescriptions) == !first
            &&& all_steps(job).contains(Step::WriteBinaries) == !first
        }),
{
    let v = all_steps(job);
    assert forall|i: int| 0 <= i < v.len() implies place(job, #[trigger] v[i]) == i by {
        lemma_places(job, i);
    }
    let first = job matches Job::Recursive { template: RecursiveTemplate::Recursive1, .. };
    if first {
        assert(v[place(job, Step::RemoveStarkinfo)] == Step::RemoveStarkinfo);
    } else {
        assert(v[place(job, Step::WriteDescriptions)] == Step::WriteDescriptions);
        assert(v[place(job, Step::WriteBinaries)] == Step::WriteBinaries);
    }
}

} // verus!
