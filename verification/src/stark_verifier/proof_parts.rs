//! Taking a proof apart.
use vstd::arithmetic::power2::pow2;
use vstd::prelude::*;

use crate::field::GOLDILOCKS_P;
use crate::plonk2pil::grid::grid;
use crate::stark_verifier::size::{
    constants_at, count_fri_vals, count_last_level, evals_at, expected_proof_size_bytes, final_bits,
    final_pol_at, fri_at, fri_roots_at, fri_vals, fri_words, last_level_words, lemma_fri_vals,
    lemma_fri_words, lemma_opening_nonneg, lemma_sections, lemma_shift, lemma_stage_words, nonce_at,
    opening_words, proof_words, sibling_levels, sibling_width, size_fits, stage_words, stages_at,
    tree_levels,
};
use crate::stark_verifier::VerifierInfo;

verus! {

/// What a proof opens of one committed tree.
pub struct TreeOpening {
    /// Opened values, per query.
    pub vals: Vec<Vec<u64>>,
    /// Sibling nodes, per query and level.
    pub siblings: Vec<Vec<Vec<u64>>>,
    /// The published last level; empty where none is published.
    pub last_level: Vec<u64>,
}

/// The parts of a proof.
pub struct ProofParts {
    pub publics: Vec<u64>,
    pub roots: Vec<[u64; 4]>,
    pub evals: Vec<[u64; 3]>,
    pub constants: TreeOpening,
    pub stages: Vec<TreeOpening>,
    pub roots_fri: Vec<[u64; 4]>,
    pub fri: Vec<TreeOpening>,
    pub final_pol: Vec<[u64; 3]>,
    pub nonce: u64,
}

/// `count` rows of `len` words from `pos` on.
pub open spec fn rows_at(words: Seq<u64>, pos: int, count: int, len: int) -> Seq<Seq<u64>> {
    Seq::new(
        count as nat,
        |i: int| words.subrange(pos + i * len, pos + i * len + len),
    )
}

/// `a` groups of `b` rows of `len` words from `pos` on.
pub open spec fn groups_at(words: Seq<u64>, pos: int, a: int, b: int, len: int) -> Seq<
    Seq<Seq<u64>>,
> {
    Seq::new(a as nat, |i: int| rows_at(words, pos + i * (b * len), b, len))
}

/// The rows of each group.
pub open spec fn groups(m: Seq<Vec<Vec<u64>>>) -> Seq<Seq<Seq<u64>>> {
    Seq::new(m.len(), |i: int| grid(m[i]@))
}

/// The opening of one tree read from `pos` on.
pub open spec fn is_opening(
    o: TreeOpening,
    words: Seq<u64>,
    pos: int,
    info: VerifierInfo,
    n_vals: int,
    bits: u64,
) -> bool {
    let q = info.n_fri_queries as int;
    let l = sibling_levels(info, bits);
    let w = sibling_width(info);
    &&& grid(o.vals@) == rows_at(words, pos, q, n_vals)
    &&& groups(o.siblings@) == groups_at(words, pos + q * n_vals, q, l, w)
    &&& o.last_level@ == words.subrange(
        pos + q * n_vals + q * l * w,
        pos + q * n_vals + q * l * w + last_level_words(info),
    )
}

/// Four words from `pos` on.
pub open spec fn quad_at(words: Seq<u64>, pos: int) -> [u64; 4] {
    [words[pos], words[pos + 1], words[pos + 2], words[pos + 3]]
}

/// Three words from `pos` on.
pub open spec fn triple_at(words: Seq<u64>, pos: int) -> [u64; 3] {
    [words[pos], words[pos + 1], words[pos + 2]]
}

pub open spec fn quads_at(words: Seq<u64>, pos: int, n: int) -> Seq<[u64; 4]> {
    Seq::new(n as nat, |i: int| quad_at(words, pos + 4 * i))
}

pub open spec fn triples_at(words: Seq<u64>, pos: int, n: int) -> Seq<[u64; 3]> {
    Seq::new(n as nat, |i: int| triple_at(words, pos + 3 * i))
}

/// The proof has the expected length, and its publics are canonical field elements.
pub open spec fn well_formed(words: Seq<u64>, vk: Seq<u64>, info: VerifierInfo) -> bool {
    &&& words.len() > 0
    &&& vk.len() >= 4
    &&& words.len() == 1 + words[0] + proof_words(info)
    &&& forall|i: int| 0 <= i < words[0] ==> #[trigger] words[1 + i] < GOLDILOCKS_P
}

/// The parts are those of the proof.
pub open spec fn is_parts(p: ProofParts, words: Seq<u64>, info: VerifierInfo) -> bool {
    let base = 1 + words[0];
    &&& p.publics@ == words.subrange(1, base)
    &&& p.roots@ == quads_at(words, base, info.n_stages + 1)
    &&& p.evals@ == triples_at(words, base + evals_at(info), info.n_evals as int)
    &&& is_opening(
        p.constants,
        words,
        base + constants_at(info),
        info,
        info.n_constants as int,
        info.n_bits_ext,
    )
    &&& p.stages@.len() == info.n_stages + 1
    &&& forall|i: int|
        0 <= i < info.n_stages + 1 ==> is_opening(
            #[trigger] p.stages@[i],
            words,
            base + stages_at(info) + stage_words(info, i as nat),
            info,
            info.num_vals@[i] as int,
            info.n_bits_ext,
        )
    &&& p.roots_fri@ == quads_at(words, base + fri_roots_at(info), info.n_fri_steps - 1)
    &&& p.fri@.len() == info.n_fri_steps - 1
    &&& forall|i: int|
        0 <= i < info.n_fri_steps - 1 ==> is_opening(
            #[trigger] p.fri@[i],
            words,
            base + fri_at(info) + fri_words(info, (i + 1) as nat),
            info,
            fri_vals(info, i + 1),
            info.fri_steps@[i + 1],
        )
    &&& p.final_pol@ == triples_at(
        words,
        base + final_pol_at(info),
        pow2(final_bits(info) as nat) as int,
    )
    &&& p.nonce == words[base + nonce_at(info)]
}

/// Take `n` words.
fn take_words(words: &[u64], pos: usize, n: u64) -> (r: (Vec<u64>, usize))
    requires
        pos + n <= words@.len(),
    ensures
        r.0@ == words@.subrange(pos as int, pos + n),
        r.1 == pos + n,
{
    let total: usize = words.len();
    let mut out: Vec<u64> = Vec::new();
    let mut p: usize = pos;
    let mut i: u64 = 0;
    while i < n
        invariant
            i <= n,
            pos + n <= words@.len(),
            words@.len() == total,
            p == pos + i,
            out@ == words@.subrange(pos as int, pos + i),
        decreases n - i,
    {
        out.push(words[p]);
        p = p + 1;
        i = i + 1;
        assert(words@.subrange(pos as int, pos + i) =~= words@.subrange(
            pos as int,
            pos + i - 1,
        ).push(words@[pos + i - 1]));
    }
    (out, p)
}

proof fn lemma_row_end(i: int, n: int, len: int)
    requires
        0 <= i < n,
        0 <= len,
    ensures
        0 <= i * len,
        i * len + len <= n * len,
        (i + 1) * len == i * len + len,
{
    assert(0 <= i * len) by (nonlinear_arith)
        requires
            0 <= i,
            0 <= len,
    ;
    assert(i * len + len <= n * len) by (nonlinear_arith)
        requires
            i + 1 <= n,
            0 <= len,
    ;
    assert((i + 1) * len == i * len + len) by (nonlinear_arith);
}

/// Take `count` rows of `len` words.
fn take_rows(words: &[u64], pos: usize, count: u64, len: u64) -> (r: (Vec<Vec<u64>>, usize))
    requires
        pos + count * len <= words@.len(),
    ensures
        grid(r.0@) == rows_at(words@, pos as int, count as int, len as int),
        r.1 == pos + count * len,
{
    let total: usize = words.len();
    let mut out: Vec<Vec<u64>> = Vec::new();
    let mut p: usize = pos;
    let mut i: u64 = 0;
    assert(0 * len == 0) by (nonlinear_arith);
    while i < count
        invariant
            i <= count,
            pos + count * len <= words@.len(),
            words@.len() == total,
            p == pos + i * len,
            out@.len() == i,
            forall|k: int|
                0 <= k < i ==> (#[trigger] out@[k])@ == words@.subrange(
                    pos + k * len,
                    pos + k * len + len,
                ),
        decreases count - i,
    {
        proof {
            lemma_row_end(i as int, count as int, len as int);
        }
        let (row, next) = take_words(words, p, len);
        out.push(row);
        p = next;
        i = i + 1;
    }
    assert(grid(out@) =~= rows_at(words@, pos as int, count as int, len as int));
    (out, p)
}

/// Take `a` groups of `b` rows of `len` words.
fn take_groups(words: &[u64], pos: usize, a: u64, b: u64, len: u64) -> (r: (
    Vec<Vec<Vec<u64>>>,
    usize,
))
    requires
        pos + a * (b * len) <= words@.len(),
    ensures
        groups(r.0@) == groups_at(words@, pos as int, a as int, b as int, len as int),
        r.1 == pos + a * (b * len),
{
    let total: usize = words.len();
    let mut out: Vec<Vec<Vec<u64>>> = Vec::new();
    let mut p: usize = pos;
    let mut i: u64 = 0;
    let ghost size = b * len;
    assert(0 * size == 0) by (nonlinear_arith);
    assert(0 <= size) by (nonlinear_arith)
        requires
            size == b * len,
    ;
    while i < a
        invariant
            i <= a,
            size == b * len,
            0 <= size,
            pos + a * size <= words@.len(),
            words@.len() == total,
            p == pos + i * size,
            out@.len() == i,
            forall|k: int|
                0 <= k < i ==> grid((#[trigger] out@[k])@) == rows_at(
                    words@,
                    pos + k * size,
                    b as int,
                    len as int,
                ),
        decreases a - i,
    {
        proof {
            lemma_row_end(i as int, a as int, size);
        }
        let (rows, next) = take_rows(words, p, b, len);
        out.push(rows);
        p = next;
        i = i + 1;
    }
    assert(groups(out@) =~= groups_at(words@, pos as int, a as int, b as int, len as int));
    (out, p)
}

/// Take the opening of one tree.
fn take_opening(words: &[u64], pos: usize, info: &VerifierInfo, n_vals: u64, bits: u64) -> (r: (
    TreeOpening,
    usize,
))
    requires
        size_fits(*info),
        bits < 64,
        sibling_levels(*info, bits) >= 0,
        pos + opening_words(*info, n_vals as int, bits) <= words@.len(),
    ensures
        is_opening(r.0, words@, pos as int, *info, n_vals as int, bits),
        r.1 == pos + opening_words(*info, n_vals as int, bits),
{
    proof {
        lemma_opening_nonneg(*info, n_vals as int, bits);
    }
    let total: usize = words.len();
    let n: u64 = info.n_fri_queries;
    let l: u64 = tree_levels(bits, info.arity) - info.last_level_verification;
    let w: u64 = (info.arity - 1) * 4;
    assert(n * (l * w) == n * l * w) by (nonlinear_arith);
    let (vals, p1) = take_rows(words, pos, n, n_vals);
    let (siblings, p2) = take_groups(words, p1, n, l, w);
    let last: u64 = count_last_level(info);
    let (last_level, p3) = take_words(words, p2, last);
    (TreeOpening { vals, siblings, last_level }, p3)
}

/// Take `n` groups of four words.
fn take_quads(words: &[u64], pos: usize, n: u64) -> (r: (Vec<[u64; 4]>, usize))
    requires
        pos + 4 * n <= words@.len(),
    ensures
        r.0@ == quads_at(words@, pos as int, n as int),
        r.1 == pos + 4 * n,
{
    let total: usize = words.len();
    let mut out: Vec<[u64; 4]> = Vec::new();
    let mut p: usize = pos;
    let mut i: u64 = 0;
    while i < n
        invariant
            i <= n,
            pos + 4 * n <= words@.len(),
            words@.len() == total,
            p == pos + 4 * i,
            out@ == quads_at(words@, pos as int, i as int),
        decreases n - i,
    {
        let ghost before = out@;
        out.push([words[p], words[p + 1], words[p + 2], words[p + 3]]);
        p = p + 4;
        i = i + 1;
        assert(out@ =~= quads_at(words@, pos as int, i as int));
    }
    (out, p)
}

/// Take `n` groups of three words.
fn take_triples(words: &[u64], pos: usize, n: u64) -> (r: (Vec<[u64; 3]>, usize))
    requires
        pos + 3 * n <= words@.len(),
    ensures
        r.0@ == triples_at(words@, pos as int, n as int),
        r.1 == pos + 3 * n,
{
    let total: usize = words.len();
    let mut out: Vec<[u64; 3]> = Vec::new();
    let mut p: usize = pos;
    let mut i: u64 = 0;
    while i < n
        invariant
            i <= n,
            pos + 3 * n <= words@.len(),
            words@.len() == total,
            p == pos + 3 * i,
            out@ == triples_at(words@, pos as int, i as int),
        decreases n - i,
    {
        out.push([words[p], words[p + 1], words[p + 2]]);
        p = p + 3;
        i = i + 1;
        assert(out@ =~= triples_at(words@, pos as int, i as int));
    }
    (out, p)
}

/// Take a proof apart; `None` where its length is not the expected one, the verification key is
/// too short, or a public is not a canonical field element.
pub fn split_proof(words: &[u64], vk: &[u64], info: &VerifierInfo) -> (r: Option<ProofParts>)
    requires
        size_fits(*info),
    ensures
        match r {
            Some(p) => well_formed(words@, vk@, *info) && is_parts(p, words@, *info),
            None => !well_formed(words@, vk@, *info),
        },
{
    if words.len() == 0 || vk.len() < 4 {
        return None;
    }
    let n_publics: u64 = words[0];
    let expected: usize = expected_proof_size_bytes(info) / 8;
    proof {
        lemma_sections(*info);
        assert(expected == proof_words(*info));
    }
    let rest: usize = words.len() - 1;
    if rest < expected {
        return None;
    }
    if (rest - expected) as u64 != n_publics {
        return None;
    }
    let ghost base = 1 + n_publics;
    let (publics, p0) = take_words(words, 1, n_publics);
    let mut i: usize = 0;
    while i < publics.len()
        invariant
            i <= publics@.len(),
            publics@.len() == n_publics,
            publics@ == words@.subrange(1, base),
            base == 1 + n_publics,
            n_publics == words@[0],
            base <= words@.len(),
            forall|j: int| 0 <= j < i ==> #[trigger] words@[1 + j] < GOLDILOCKS_P,
        decreases publics@.len() - i,
    {
        assert(publics@[i as int] == words@[1 + i]);
        if publics[i] >= GOLDILOCKS_P {
            return None;
        }
        i = i + 1;
    }
    let n_stages: u64 = info.n_stages as u64 + 1;
    let (roots, p1) = take_quads(words, p0, n_stages);
    let (evals, p2) = take_triples(words, p1, info.n_evals);
    let (constants, p3) = take_opening(words, p2, info, info.n_constants, info.n_bits_ext);
    let mut stages: Vec<TreeOpening> = Vec::new();
    let mut p: usize = p3;
    let mut s: u64 = 0;
    while s < n_stages
        invariant
            s <= n_stages,
            n_stages == info.n_stages + 1,
            size_fits(*info),
            words@.len() == base + proof_words(*info),
            p == base + stages_at(*info) + stage_words(*info, s as nat),
            stages@.len() == s,
            forall|k: int|
                0 <= k < s ==> is_opening(
                    #[trigger] stages@[k],
                    words@,
                    base + stages_at(*info) + stage_words(*info, k as nat),
                    *info,
                    info.num_vals@[k] as int,
                    info.n_bits_ext,
                ),
        decreases n_stages - s,
    {
        proof {
            lemma_sections(*info);
            lemma_stage_words(*info, (s + 1) as nat, n_stages as nat);
        }
        let (o, next) = take_opening(
            words,
            p,
            info,
            info.num_vals[s as usize],
            info.n_bits_ext,
        );
        stages.push(o);
        p = next;
        s = s + 1;
    }
    proof {
        lemma_sections(*info);
    }
    let (roots_fri, p4) = take_quads(words, p, info.n_fri_steps - 1);
    let mut fri: Vec<TreeOpening> = Vec::new();
    let mut k: u64 = 1;
    let mut pf: usize = p4;
    while k < info.n_fri_steps
        invariant
            1 <= k <= info.n_fri_steps,
            size_fits(*info),
            words@.len() == base + proof_words(*info),
            pf == base + fri_at(*info) + fri_words(*info, k as nat),
            fri@.len() == k - 1,
            forall|i: int|
                0 <= i < k - 1 ==> is_opening(
                    #[trigger] fri@[i],
                    words@,
                    base + fri_at(*info) + fri_words(*info, (i + 1) as nat),
                    *info,
                    fri_vals(*info, i + 1),
                    info.fri_steps@[i + 1],
                ),
        decreases info.n_fri_steps - k,
    {
        proof {
            lemma_sections(*info);
            lemma_fri_words(*info, (k + 1) as nat, info.n_fri_steps as nat);
            lemma_fri_vals(*info, k as int);
            assert(info.fri_steps@[k as int] < 64);
            assert(sibling_levels(*info, info.fri_steps@[k as int]) >= 0);
        }
        let vals: u64 = count_fri_vals(info, k);
        let (o, next) = take_opening(words, pf, info, vals, info.fri_steps[k as usize]);
        fri.push(o);
        pf = next;
        k = k + 1;
    }
    let fb: u64 = info.fri_steps[(info.n_fri_steps - 1) as usize];
    proof {
        lemma_sections(*info);
        lemma_shift(fb);
    }
    let (final_pol, p5) = take_triples(words, pf, 1u64 << fb);
    let nonce: u64 = words[p5];
    Some(
        ProofParts {
            publics,
            roots,
            evals,
            constants,
            stages,
            roots_fri,
            fri,
            final_pol,
            nonce,
        },
    )
}

} // verus!
