//! What a verifier puts into the transcript, and which challenges it draws.
use vstd::prelude::*;

use crate::stark_verifier::proof_parts::ProofParts;
use crate::stark_verifier::VerifierInfo;

verus! {

/// One step of the transcript.
pub enum TranscriptOp {
    /// Put the words.
    Put(Vec<u64>),
    /// Put each chunk into a fresh transcript, and the first four words of its state into this one.
    PutDigest(Vec<Vec<u64>>),
    /// Draw the challenge with this index.
    Challenge(u64),
}

/// One step of the transcript, as data.
pub enum Step {
    Put(Seq<u64>),
    PutDigest(Seq<Seq<u64>>),
    Challenge(int),
}

/// The step that an operation performs.
pub open spec fn step_of(op: TranscriptOp) -> Step {
    match op {
        TranscriptOp::Put(v) => Step::Put(v@),
        TranscriptOp::PutDigest(v) => Step::PutDigest(crate::plonk2pil::grid::grid(v@)),
        TranscriptOp::Challenge(i) => Step::Challenge(i as int),
    }
}

/// The steps that operations perform.
pub open spec fn steps_of(ops: Seq<TranscriptOp>) -> Seq<Step> {
    Seq::new(ops.len(), |i: int| step_of(ops[i]))
}

/// The elements as chunks.
pub open spec fn chunks(v: Seq<[u64; 3]>) -> Seq<Seq<u64>> {
    Seq::new(v.len(), |i: int| v[i]@)
}

/// A list of elements committed: each put, or all digested.
pub open spec fn committed(v: Seq<[u64; 3]>, hash: bool) -> Seq<Step> {
    if hash {
        seq![Step::PutDigest(chunks(v))]
    } else {
        Seq::new(v.len(), |i: int| Step::Put(v[i]@))
    }
}

/// The publics committed; nothing where there are none.
pub open spec fn publics_committed(publics: Seq<u64>, hash: bool) -> Seq<Step> {
    if publics.len() == 0 {
        Seq::empty()
    } else if hash {
        seq![Step::PutDigest(seq![publics])]
    } else {
        seq![Step::Put(publics)]
    }
}

/// The steps of the FRI step `i` of `n`.
pub open spec fn fri_step(parts: ProofParts, hash: bool, n: int, i: int) -> Seq<Step> {
    (if i > 0 {
        seq![Step::Challenge(6 + i)]
    } else {
        Seq::empty()
    }) + (if i < n - 1 {
        seq![Step::Put(parts.roots_fri@[i]@)]
    } else {
        committed(parts.final_pol@, hash)
    })
}

/// The steps of the first `m` FRI steps.
pub open spec fn fri_steps_upto(parts: ProofParts, hash: bool, n: int, m: nat) -> Seq<Step>
    decreases m,
{
    if m == 0 {
        Seq::empty()
    } else {
        fri_steps_upto(parts, hash, n, (m - 1) as nat) + fri_step(parts, hash, n, m - 1)
    }
}

/// The whole transcript: the verification key, the publics, the roots with the challenges of
/// their stages, the evaluations, and the FRI steps.
pub open spec fn script(vk: Seq<u64>, parts: ProofParts, info: VerifierInfo) -> Seq<Step> {
    seq![Step::Put(vk.take(4))] + publics_committed(parts.publics@, info.hash_commits) + seq![
        Step::Put(parts.roots@[0]@),
        Step::Challenge(0),
        Step::Challenge(1),
        Step::Put(parts.roots@[1]@),
        Step::Challenge(2),
        Step::Put(parts.roots@[2]@),
        Step::Challenge(3),
    ] + committed(parts.evals@, info.hash_commits) + seq![
        Step::Challenge(4),
        Step::Challenge(5),
    ] + fri_steps_upto(
        parts,
        info.hash_commits,
        info.n_fri_steps as int,
        info.n_fri_steps as nat,
    ) + seq![Step::Challenge(6 + info.n_fri_steps)]
}

fn triple_words(t: &[u64; 3]) -> (r: Vec<u64>)
    ensures
        r@ == t@,
{
    let mut v: Vec<u64> = Vec::new();
    v.push(t[0]);
    v.push(t[1]);
    v.push(t[2]);
    assert(v@ =~= t@);
    v
}

fn quad_words(t: &[u64; 4]) -> (r: Vec<u64>)
    ensures
        r@ == t@,
{
    let mut v: Vec<u64> = Vec::new();
    v.push(t[0]);
    v.push(t[1]);
    v.push(t[2]);
    v.push(t[3]);
    assert(v@ =~= t@);
    v
}

proof fn lemma_push_op(ops: Seq<TranscriptOp>, op: TranscriptOp)
    ensures
        steps_of(ops.push(op)) == steps_of(ops) + seq![step_of(op)],
{
    assert(steps_of(ops.push(op)) =~= steps_of(ops) + seq![step_of(op)]);
}

fn add_op(ops: &mut Vec<TranscriptOp>, op: TranscriptOp)
    ensures
        steps_of(final(ops)@) == steps_of(old(ops)@) + seq![step_of(op)],
{
    proof {
        lemma_push_op(ops@, op);
    }
    ops.push(op);
}

/// Commit to a list of elements.
fn add_committed(ops: &mut Vec<TranscriptOp>, v: &Vec<[u64; 3]>, hash: bool)
    ensures
        steps_of(final(ops)@) == steps_of(old(ops)@) + committed(v@, hash),
{
    let ghost start = steps_of(ops@);
    if hash {
        let mut all: Vec<Vec<u64>> = Vec::new();
        let mut i: usize = 0;
        while i < v.len()
            invariant
                i <= v@.len(),
                all@.len() == i,
                forall|k: int| 0 <= k < i ==> (#[trigger] all@[k])@ == v@[k]@,
            decreases v@.len() - i,
        {
            all.push(triple_words(&v[i]));
            i = i + 1;
        }
        assert(crate::plonk2pil::grid::grid(all@) =~= chunks(v@));
        add_op(ops, TranscriptOp::PutDigest(all));
    } else {
        let mut i: usize = 0;
        assert(steps_of(ops@) =~= start + Seq::new(0, |k: int| Step::Put(v@[k]@)));
        while i < v.len()
            invariant
                i <= v@.len(),
                steps_of(ops@) == start + Seq::new(i as nat, |k: int| Step::Put(v@[k]@)),
            decreases v@.len() - i,
        {
            add_op(ops, TranscriptOp::Put(triple_words(&v[i])));
            i = i + 1;
            assert(steps_of(ops@) =~= start + Seq::new(i as nat, |k: int| Step::Put(v@[k]@)));
        }
    }
}

/// Everything that goes into the transcript, and every challenge that comes out, in order.
pub fn transcript_script(vk: &[u64], parts: &ProofParts, info: &VerifierInfo) -> (r: Vec<
    TranscriptOp,
>)
    requires
        vk@.len() >= 4,
        parts.roots@.len() >= 3,
        info.n_fri_steps >= 1,
        parts.roots_fri@.len() == info.n_fri_steps - 1,
        info.n_fri_steps <= u64::MAX - 6,
    ensures
        steps_of(r@) == script(vk@, *parts, *info),
{
    let hash: bool = info.hash_commits;
    let mut ops: Vec<TranscriptOp> = Vec::new();
    let mut key: Vec<u64> = Vec::new();
    key.push(vk[0]);
    key.push(vk[1]);
    key.push(vk[2]);
    key.push(vk[3]);
    assert(key@ =~= vk@.take(4));
    assert(steps_of(ops@) =~= Seq::empty());
    add_op(&mut ops, TranscriptOp::Put(key));
    assert(steps_of(ops@) =~= seq![Step::Put(vk@.take(4))]);
    if parts.publics.len() > 0 {
        let copy: Vec<u64> = parts.publics.clone();
        assert(copy@ =~= parts.publics@);
        if hash {
            let mut all: Vec<Vec<u64>> = Vec::new();
            all.push(copy);
            assert(crate::plonk2pil::grid::grid(all@) =~= seq![parts.publics@]);
            add_op(&mut ops, TranscriptOp::PutDigest(all));
        } else {
            add_op(&mut ops, TranscriptOp::Put(copy));
        }
    }
    let ghost s1 = seq![Step::Put(vk@.take(4))] + publics_committed(parts.publics@, hash);
    assert(steps_of(ops@) =~= s1);
    add_op(&mut ops, TranscriptOp::Put(quad_words(&parts.roots[0])));
    add_op(&mut ops, TranscriptOp::Challenge(0));
    add_op(&mut ops, TranscriptOp::Challenge(1));
    add_op(&mut ops, TranscriptOp::Put(quad_words(&parts.roots[1])));
    add_op(&mut ops, TranscriptOp::Challenge(2));
    add_op(&mut ops, TranscriptOp::Put(quad_words(&parts.roots[2])));
    add_op(&mut ops, TranscriptOp::Challenge(3));
    let ghost s2 = s1 + seq![
        Step::Put(parts.roots@[0]@),
        Step::Challenge(0),
        Step::Challenge(1),
        Step::Put(parts.roots@[1]@),
        Step::Challenge(2),
        Step::Put(parts.roots@[2]@),
        Step::Challenge(3),
    ];
    assert(steps_of(ops@) =~= s2);
    add_committed(&mut ops, &parts.evals, hash);
    add_op(&mut ops, TranscriptOp::Challenge(4));
    add_op(&mut ops, TranscriptOp::Challenge(5));
    let ghost s3 = s2 + committed(parts.evals@, hash) + seq![Step::Challenge(4), Step::Challenge(5)];
    assert(steps_of(ops@) =~= s3);
    let n: u64 = info.n_fri_steps;
    let mut i: u64 = 0;
    assert(steps_of(ops@) =~= s3 + fri_steps_upto(*parts, hash, n as int, 0));
    while i < n
        invariant
            i <= n,
            n == info.n_fri_steps,
            n <= u64::MAX - 6,
            parts.roots_fri@.len() == n - 1,
            steps_of(ops@) == s3 + fri_steps_upto(*parts, hash, n as int, i as nat),
        decreases n - i,
    {
        let ghost before = steps_of(ops@);
        if i > 0 {
            add_op(&mut ops, TranscriptOp::Challenge(6 + i));
        }
        let ghost mid = steps_of(ops@);
        if i < n - 1 {
            let count: usize = parts.roots_fri.len();
            add_op(&mut ops, TranscriptOp::Put(quad_words(&parts.roots_fri[i as usize])));
        } else {
            add_committed(&mut ops, &parts.final_pol, hash);
        }
        proof {
            assert(steps_of(ops@) =~= before + fri_step(*parts, hash, n as int, i as int));
            assert(steps_of(ops@) =~= s3 + (fri_steps_upto(*parts, hash, n as int, i as nat)
                + fri_step(*parts, hash, n as int, i as int)));
        }
        i = i + 1;
    }
    add_op(&mut ops, TranscriptOp::Challenge(6 + n));
    assert(steps_of(ops@) =~= script(vk@, *parts, *info));
    ops
}

} // verus!
