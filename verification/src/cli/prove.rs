//! The command that proves.
use vstd::prelude::*;

use crate::text::{chars_of, string_of};

verus! {

/// The arguments of the command, as far as they decide how it proves.
pub struct ProveCmd {
    pub aggregation: bool,
    pub compressed: bool,
    pub verify_proofs: bool,
    pub custom_commits: Vec<String>,
    pub no_rma: bool,
    pub minimal_memory: bool,
    pub max_streams: Option<usize>,
    pub max_recursive_streams: Option<usize>,
    pub number_threads_witness: Option<usize>,
    pub max_witness_stored: Option<usize>,
    pub gpu: bool,
    pub verbose: u8,
}

/// What a prover is set up for.
#[derive(Clone, Copy, PartialEq, Eq, Structural, Debug)]
pub enum ProveMode {
    /// Only the constraints are checked.
    VerifyConstraints,
    /// Single proofs, not aggregated.
    NoAggregation,
    /// Aggregated proofs.
    Aggregation,
}

/// How a prover is set up.
#[derive(Clone, Copy, PartialEq, Eq, Structural, Debug)]
pub struct ProverOptions {
    pub mode: ProveMode,
    pub max_streams: Option<usize>,
    pub max_recursive_streams: Option<usize>,
    pub number_threads_witness: Option<usize>,
    pub max_witness_stored: Option<usize>,
    pub gpu: bool,
    pub verbose: u8,
}

/// How a proof is made.
#[derive(Clone, Copy, PartialEq, Eq, Structural, Debug)]
pub struct ProofOptions {
    pub test_mode: bool,
    pub aggregation: bool,
    pub rma: bool,
    pub compressed: bool,
    pub verify_proofs: bool,
    pub minimal_memory: bool,
}

impl ProveCmd {
    /// How the prover is set up. Debugging checks constraints and nothing else.
    pub fn prover_options(&self, debug: bool) -> (r: ProverOptions)
        ensures
            r == (ProverOptions {
                mode: if debug {
                    ProveMode::VerifyConstraints
                } else if self.aggregation {
                    ProveMode::Aggregation
                } else {
                    ProveMode::NoAggregation
                },
                max_streams: self.max_streams,
                max_recursive_streams: self.max_recursive_streams,
                number_threads_witness: self.number_threads_witness,
                max_witness_stored: self.max_witness_stored,
                gpu: self.gpu,
                verbose: self.verbose,
            }),
    {
        ProverOptions {
            mode: if debug {
                ProveMode::VerifyConstraints
            } else if self.aggregation {
                ProveMode::Aggregation
            } else {
                ProveMode::NoAggregation
            },
            max_streams: self.max_streams,
            max_recursive_streams: self.max_recursive_streams,
            number_threads_witness: self.number_threads_witness,
            max_witness_stored: self.max_witness_stored,
            gpu: self.gpu,
            verbose: self.verbose,
        }
    }

    /// How the proof is made.
    pub fn proof_options(&self) -> (r: ProofOptions)
        ensures
            r == (ProofOptions {
                test_mode: false,
                aggregation: self.aggregation,
                rma: !self.no_rma,
                compressed: self.compressed,
                verify_proofs: self.verify_proofs,
                minimal_memory: self.minimal_memory,
            }),
    {
        ProofOptions {
            test_mode: false,
            aggregation: self.aggregation,
            rma: !self.no_rma,
            compressed: self.compressed,
            verify_proofs: self.verify_proofs,
            minimal_memory: self.minimal_memory,
        }
    }

    /// The custom commitments, each with its file.
    pub fn commits(&self) -> (r: Vec<Commit>)
        ensures
            r@.len() == self.custom_commits@.len(),
            forall|i: int|
                0 <= i < r@.len() ==> is_commit(#[trigger] r@[i], self.custom_commits@[i]@),
    {
        let mut out: Vec<Commit> = Vec::new();
        let mut i: usize = 0;
        while i < self.custom_commits.len()
            invariant
                i <= self.custom_commits@.len(),
                out@.len() == i,
                forall|k: int|
                    0 <= k < i ==> is_commit(#[trigger] out@[k], self.custom_commits@[k]@),
            decreases self.custom_commits@.len() - i,
        {
            let c: Commit = split_commit(self.custom_commits[i].as_str());
            out.push(c);
            i = i + 1;
        }
        out
    }
}

/// A custom commitment as it was asked for.
pub enum Commit {
    /// A name and its file.
    Named { key: String, value: String },
    /// A text without an equals sign.
    Invalid { text: String },
}

/// The commitment that a text asks for: what stands in front of its first equals sign, and
/// behind it.
pub open spec fn is_commit(c: Commit, text: Seq<char>) -> bool {
    match c {
        Commit::Named { key, value } => text == key@ + seq!['='] + value@ && !key@.contains('='),
        Commit::Invalid { text: t } => t@ == text && !text.contains('='),
    }
}

/// The commitment that a text asks for.
pub fn split_commit(text: &str) -> (r: Commit)
    ensures
        is_commit(r, text@),
{
    let cs: Vec<char> = chars_of(text);
    let mut i: usize = 0;
    while i < cs.len()
        invariant
            i <= cs@.len(),
            cs@ == text@,
            forall|k: int| 0 <= k < i ==> cs@[k] != '=',
        decreases cs@.len() - i,
    {
        if cs[i] == '=' {
            let key: String = part(&cs, 0, i);
            let value: String = part(&cs, i + 1, cs.len());
            proof {
                assert(text@ =~= key@ + seq!['='] + value@);
                assert(!key@.contains('=')) by {
                    if key@.contains('=') {
                        let k = key@.index_of('=');
                        assert(key@[k] == cs@[k]);
                    }
                }
            }
            return Commit::Named { key, value };
        }
        i = i + 1;
    }
    assert(!text@.contains('=')) by {
        if text@.contains('=') {
            let k = text@.index_of('=');
            assert(cs@[k] == '=');
        }
    }
    Commit::Invalid { text: text.to_owned() }
}

fn part(cs: &Vec<char>, lo: usize, hi: usize) -> (r: String)
    requires
        lo <= hi <= cs@.len(),
    ensures
        r@ == cs@.subrange(lo as int, hi as int),
{
    let mut v: Vec<char> = Vec::new();
    let mut i: usize = lo;
    while i < hi
        invariant
            lo <= i <= hi <= cs@.len(),
            v@ == cs@.subrange(lo as int, i as int),
        decreases hi - i,
    {
        v.push(cs[i]);
        assert(cs@.subrange(lo as int, i + 1) =~= cs@.subrange(lo as int, i as int).push(
            cs@[i as int],
        ));
        i = i + 1;
    }
    string_of(v.as_slice())
}

/// A text asks for one commitment only.
pub proof fn law_commits_are_determined(c: Commit, d: Commit, text: Seq<char>)
    requires
        is_commit(c, text),
        is_commit(d, text),
    ensures
        match (c, d) {
            (Commit::Named { key: k, value: v }, Commit::Named { key: l, value: w }) => k@ == l@
                && v@ == w@,
            (Commit::Invalid { text: t }, Commit::Invalid { text: u }) => t@ == u@,
            _ => false,
        },
{
    match (c, d) {
        (Commit::Named { key: k, value: v }, Commit::Named { key: l, value: w }) => {
            let a = k@;
            let b = l@;
            assert(text[a.len() as int] == '=');
            assert(text[b.len() as int] == '=');
            if a.len() < b.len() {
                assert(b[a.len() as int] == '=');
                assert(b.contains('='));
            } else if b.len() < a.len() {
                assert(a[b.len() as int] == '=');
                assert(a.contains('='));
            }
            assert(a =~= text.take(a.len() as int));
            assert(b =~= text.take(b.len() as int));
            assert(v@ =~= text.skip(a.len() as int + 1));
            assert(w@ =~= text.skip(b.len() as int + 1));
        },
        (Commit::Named { key: k, value: v }, Commit::Invalid { text: u }) => {
            assert(text[k@.len() as int] == '=');
        },
        (Commit::Invalid { text: u }, Commit::Named { key: k, value: v }) => {
            assert(text[k@.len() as int] == '=');
        },
        _ => {},
    }
}

} // verus!
