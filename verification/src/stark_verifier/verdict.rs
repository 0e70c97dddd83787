//! The verdict on a proof, from its parts and from what hashing and evaluating them gave.
use vstd::arithmetic::power2::pow2;
use vstd::prelude::*;

use crate::field::{eqp, residue, GOLDILOCKS_P};
use crate::plonk2pil::grid::grid;
use crate::stark_verifier::cubic::{
    ext_eq, ext_eval, ext_horner, ext_same, ext_square_times, field_eq, squared, Ext,
};
use crate::stark_verifier::proof_parts::{is_parts, rows_at, split_proof, well_formed, ProofParts};
use crate::stark_verifier::size::{
    final_bits, fri_vals, info_ok, lemma_fri_vals, lemma_shift, size_fits,
};
use crate::stark_verifier::VerifierInfo;

verus! {

/// What hashing and evaluating the openings of one query gave.
pub struct QueryReply {
    /// The queried position.
    pub query: u64,
    /// The constant tree's opening leads to its root.
    pub constants: bool,
    /// The opening of each stage leads to its root.
    pub stages: Vec<bool>,
    /// The FRI polynomial at the queried position, computed from the openings.
    pub fri_value: Ext,
    /// The opening of each FRI step leads to its root.
    pub fri: Vec<bool>,
    /// Each FRI step's opening folded.
    pub folds: Vec<Ext>,
}

/// What hashing and evaluating the parts of a proof gave.
pub struct Replies {
    /// The first word of the proof-of-work hash.
    pub pow_hash: u64,
    /// The evaluation point.
    pub xi: Ext,
    pub queries: Vec<QueryReply>,
    /// The roots recomputed from the published last levels.
    pub constant_root: [u64; 4],
    pub stage_roots: Vec<[u64; 4]>,
    pub fri_roots: Vec<[u64; 4]>,
    /// The quotient at the evaluation point, computed from the evaluations.
    pub q_val: Ext,
    /// The coefficients of the final polynomial, three words each.
    pub final_coefs: Vec<u64>,
}

/// The parts have the shape that the description asks for.
pub open spec fn parts_shaped(p: ProofParts, info: VerifierInfo) -> bool {
    &&& p.roots@.len() == info.n_stages + 1
    &&& p.roots_fri@.len() == info.n_fri_steps - 1
    &&& p.fri@.len() == info.n_fri_steps - 1
    &&& forall|i: int|
        0 <= i < info.n_fri_steps - 1 ==> (#[trigger] p.fri@[i]).vals@.len() == info.n_fri_queries
    &&& forall|i: int, q: int|
        0 <= i < info.n_fri_steps - 1 && 0 <= q < info.n_fri_queries ==> (
        #[trigger] p.fri@[i].vals@[q])@.len() == fri_vals(info, i + 1)
    &&& p.final_pol@.len() == pow2(final_bits(info) as nat)
    &&& p.evals@.len() == info.n_evals
}

/// A proof taken apart has the shape that the description asks for.
pub proof fn lemma_parts_shaped(p: ProofParts, words: Seq<u64>, info: VerifierInfo)
    requires
        info_ok(info),
        is_parts(p, words, info),
        words.len() == 1 + words[0] + crate::stark_verifier::size::proof_words(info),
    ensures
        parts_shaped(p, info),
{
    crate::stark_verifier::size::lemma_sections(info);
    vstd::arithmetic::power2::lemma_pow2_pos(final_bits(info) as nat);
    let base = 1 + words[0];
    assert forall|i: int| 0 <= i < info.n_fri_steps - 1 implies (
    #[trigger] p.fri@[i]).vals@.len() == info.n_fri_queries by {
        assert(grid(p.fri@[i].vals@).len() == info.n_fri_queries);
    }
    assert forall|i: int, q: int|
        0 <= i < info.n_fri_steps - 1 && 0 <= q < info.n_fri_queries implies (
    #[trigger] p.fri@[i].vals@[q])@.len() == fri_vals(info, i + 1) by {
        let o = p.fri@[i];
        let pos = base + crate::stark_verifier::size::fri_at(info)
            + crate::stark_verifier::size::fri_words(info, (i + 1) as nat);
        let n = fri_vals(info, i + 1);
        lemma_fri_vals(info, i + 1);
        let bits = info.fri_steps@[i + 1];
        assert(crate::stark_verifier::size::sibling_levels(info, bits) >= 0);
        crate::stark_verifier::size::lemma_fri_words(
            info,
            (i + 2) as nat,
            info.n_fri_steps as nat,
        );
        crate::stark_verifier::size::lemma_fri_words(
            info,
            (i + 1) as nat,
            info.n_fri_steps as nat,
        );
        crate::stark_verifier::size::lemma_opening_nonneg(info, n, bits);
        let queries = info.n_fri_queries as int;
        assert(0 <= q * n && q * n + n <= queries * n) by (nonlinear_arith)
            requires
                0 <= q,
                q + 1 <= queries,
                n >= 0,
        ;
        assert(grid(o.vals@)[q] == rows_at(words, pos, queries, n)[q]);
        assert(rows_at(words, pos, queries, n)[q] == words.subrange(pos + q * n, pos + q * n + n));
    }
}

/// The replies answer every question.
pub open spec fn replies_complete(r: Replies, info: VerifierInfo) -> bool {
    &&& r.queries@.len() == info.n_fri_queries
    &&& forall|q: int|
        0 <= q < info.n_fri_queries ==> {
            &&& (#[trigger] r.queries@[q]).stages@.len() == info.n_stages + 1
            &&& r.queries@[q].fri@.len() == info.n_fri_steps - 1
            &&& r.queries@[q].folds@.len() == info.n_fri_steps - 1
        }
    &&& info.last_level_verification > 0 ==> r.stage_roots@.len() == info.n_stages + 1
        && r.fri_roots@.len() == info.n_fri_steps - 1
    &&& r.final_coefs@.len() == 3 * pow2(final_bits(info) as nat)
}

/// The description lets proofs be judged: the work has at least one bit, the quotient's pieces are
/// among the evaluations, and the final polynomial is not smaller than the blowup.
pub open spec fn verdict_ok(info: VerifierInfo) -> bool {
    &&& info_ok(info)
    &&& 1 <= info.pow_bits <= 64
    &&& info.q_index + info.q_deg <= info.n_evals
    &&& info.n_bits <= info.n_bits_ext
    &&& info.n_bits_ext - info.n_bits <= final_bits(info)
}

/// The position of a query in a domain of `2^bits` points.
pub open spec fn position(query: u64, bits: u64) -> int {
    query as int % pow2(bits as nat) as int
}

/// The group of three words that a position falls into, in a domain folded to `2^bits` points.
pub open spec fn group_of(pos: int, bits: u64) -> int {
    pos / pow2(bits as nat) as int
}

/// Three words of a list.
pub open spec fn triple_in(v: Seq<u64>, g: int) -> Ext {
    [v[3 * g], v[3 * g + 1], v[3 * g + 2]]
}

/// The value that a query has to have at the FRI step `s`: in the next opening, or in the final
/// polynomial after the last step.
pub open spec fn expected_at(p: ProofParts, info: VerifierInfo, q: int, query: u64, s: int) -> Ext {
    let pos = position(query, info.fri_steps@[s]);
    if s < info.n_fri_steps - 1 {
        triple_in(p.fri@[s].vals@[q]@, group_of(pos, info.fri_steps@[s + 1]))
    } else {
        p.final_pol@[pos]
    }
}

/// An FRI step's opening folds to the value of the next step.
pub open spec fn fold_ok(p: ProofParts, info: VerifierInfo, q: int, r: QueryReply, s: int) -> bool {
    ext_same(r.folds@[s], expected_at(p, info, q, r.query, s + 1))
}

/// One query is consistent.
pub open spec fn query_valid(p: ProofParts, info: VerifierInfo, q: int, r: QueryReply) -> bool {
    &&& r.constants
    &&& forall|s: int| 0 <= s < info.n_stages + 1 ==> #[trigger] r.stages@[s]
    &&& ext_same(r.fri_value, expected_at(p, info, q, r.query, 0))
    &&& forall|s: int|
        0 <= s < info.n_fri_steps - 1 ==> (#[trigger] r.fri@[s]) && fold_ok(p, info, q, r, s)
}

/// The same four field elements.
pub open spec fn quad_same(a: [u64; 4], b: [u64; 4]) -> bool {
    forall|i: int| 0 <= i < 4 ==> eqp(#[trigger] a[i] as int, b[i] as int)
}

/// The recomputed roots are the given ones, where last levels are published.
pub open spec fn roots_valid(vk: Seq<u64>, p: ProofParts, info: VerifierInfo, r: Replies) -> bool {
    info.last_level_verification > 0 ==> {
        &&& quad_same(r.constant_root, [vk[0], vk[1], vk[2], vk[3]])
        &&& forall|s: int|
            0 <= s < info.n_stages + 1 ==> quad_same(#[trigger] r.stage_roots@[s], p.roots@[s])
        &&& forall|s: int|
            0 <= s < info.n_fri_steps - 1 ==> quad_same(
                #[trigger] r.fri_roots@[s],
                p.roots_fri@[s],
            )
    }
}

/// The quotient recombined from its pieces is the one computed from the evaluations.
pub open spec fn quotient_valid(p: ProofParts, info: VerifierInfo, r: Replies) -> bool {
    ext_same(
        r.q_val,
        ext_horner(
            squared(r.xi, info.n_bits as nat),
            p.evals@,
            info.q_index as int,
            info.q_deg as nat,
        ),
    )
}

/// The first coefficient of the final polynomial that has to vanish.
pub open spec fn degree_bound(info: VerifierInfo) -> int {
    pow2((final_bits(info) - (info.n_bits_ext - info.n_bits)) as nat) as int
}

/// The final polynomial has the degree that the trace allows.
pub open spec fn final_valid(info: VerifierInfo, coefs: Seq<u64>) -> bool {
    forall|i: int| 3 * degree_bound(info) <= i < coefs.len() ==> residue(#[trigger] coefs[i] as int)
        == 0
}

/// The work was done.
pub open spec fn pow_valid(info: VerifierInfo, hash: u64) -> bool {
    hash < pow2((64 - info.pow_bits) as nat)
}

/// The proof is accepted.
pub open spec fn accepted(vk: Seq<u64>, p: ProofParts, info: VerifierInfo, r: Replies) -> bool {
    &&& pow_valid(info, r.pow_hash)
    &&& forall|q: int|
        0 <= q < info.n_fri_queries ==> query_valid(p, info, q, #[trigger] r.queries@[q])
    &&& roots_valid(vk, p, info, r)
    &&& quotient_valid(p, info, r)
    &&& final_valid(info, r.final_coefs@)
}

/// Check the work.
pub fn check_pow(info: &VerifierInfo, hash: u64) -> (r: bool)
    requires
        1 <= info.pow_bits <= 64,
    ensures
        r == pow_valid(*info, hash),
{
    let bits: u64 = 64 - info.pow_bits;
    proof {
        lemma_shift(bits);
    }
    hash < (1u64 << bits)
}

proof fn lemma_group(query: u64, from: u64, to: u64)
    requires
        to <= from < 64,
    ensures
        0 <= position(query, from) < pow2(from as nat),
        0 <= group_of(position(query, from), to) < pow2((from - to) as nat),
{
    let n = pow2(from as nat) as int;
    let d = pow2(to as nat) as int;
    let m = pow2((from - to) as nat) as int;
    vstd::arithmetic::power2::lemma_pow2_pos(from as nat);
    vstd::arithmetic::power2::lemma_pow2_pos(to as nat);
    vstd::arithmetic::div_mod::lemma_mod_bound(query as int, n);
    vstd::arithmetic::power2::lemma_pow2_adds(to as nat, (from - to) as nat);
    let pos = position(query, from);
    vstd::arithmetic::div_mod::lemma_div_pos_is_pos(pos, d);
    assert(pos < d * m);
    assert(pos / d < m) by {
        vstd::arithmetic::div_mod::lemma_multiply_divide_lt(pos, d, m);
    }
}

/// The position of a query in a domain of `2^bits` points.
pub fn query_position(query: u64, bits: u64) -> (r: u64)
    requires
        bits < 64,
    ensures
        r == position(query, bits),
        r < pow2(bits as nat),
{
    proof {
        lemma_shift(bits);
        lemma_group(query, bits, bits);
        vstd::arithmetic::power2::lemma_pow2_pos(bits as nat);
    }
    query % (1u64 << bits)
}

/// The value that a query has to have at an FRI step.
pub fn expected_value(p: &ProofParts, info: &VerifierInfo, q: usize, query: u64, s: u64) -> (r: Ext)
    requires
        info_ok(*info),
        parts_shaped(*p, *info),
        q < info.n_fri_queries,
        s < info.n_fri_steps,
    ensures
        r == expected_at(*p, *info, q as int, query, s as int),
{
    let n: usize = info.fri_steps.len();
    proof {
        assert(info.fri_steps@[s as int] < 64);
    }
    let bits: u64 = info.fri_steps[s as usize];
    let pos: u64 = query_position(query, bits);
    if s < info.n_fri_steps - 1 {
        proof {
            lemma_fri_vals(*info, s + 1);
            assert(info.fri_steps@[s + 1] < 64);
        }
        let to: u64 = info.fri_steps[(s + 1) as usize];
        proof {
            lemma_shift(to);
            lemma_group(query, bits, to);
            vstd::arithmetic::power2::lemma_pow2_pos(to as nat);
        }
        let g: u64 = pos / (1u64 << to);
        proof {
            assert(g == group_of(pos as int, to));
            assert(p.fri@[s as int].vals@.len() == info.n_fri_queries);
            assert(p.fri@[s as int].vals@[q as int]@.len() == fri_vals(*info, s + 1));
        }
        let vals: &Vec<u64> = &p.fri[s as usize].vals[q];
        let total: usize = vals.len();
        assert(3 * g + 2 < total);
        [vals[(3 * g) as usize], vals[(3 * g + 1) as usize], vals[(3 * g + 2) as usize]]
    } else {
        let total: usize = p.final_pol.len();
        assert(bits == final_bits(*info));
        p.final_pol[pos as usize]
    }
}

fn all_true(v: &Vec<bool>) -> (r: bool)
    ensures
        r == forall|i: int| 0 <= i < v@.len() ==> #[trigger] v@[i],
{
    let mut i: usize = 0;
    while i < v.len()
        invariant
            i <= v@.len(),
            forall|j: int| 0 <= j < i ==> #[trigger] v@[j],
        decreases v@.len() - i,
    {
        if !v[i] {
            return false;
        }
        i = i + 1;
    }
    true
}

/// Check one query.
pub fn check_query(p: &ProofParts, info: &VerifierInfo, q: usize, r: &QueryReply) -> (ok: bool)
    requires
        info_ok(*info),
        parts_shaped(*p, *info),
        q < info.n_fri_queries,
        r.stages@.len() == info.n_stages + 1,
        r.fri@.len() == info.n_fri_steps - 1,
        r.folds@.len() == info.n_fri_steps - 1,
    ensures
        ok == query_valid(*p, *info, q as int, *r),
{
    if !r.constants {
        return false;
    }
    if !all_true(&r.stages) {
        return false;
    }
    let first: Ext = expected_value(p, info, q, r.query, 0);
    if !ext_eq(&r.fri_value, &first) {
        return false;
    }
    let mut s: usize = 0;
    while s < r.fri.len()
        invariant
            s <= r.fri@.len(),
            info_ok(*info),
            parts_shaped(*p, *info),
            q < info.n_fri_queries,
            r.fri@.len() == info.n_fri_steps - 1,
            r.folds@.len() == info.n_fri_steps - 1,
            forall|k: int|
                0 <= k < s ==> (#[trigger] r.fri@[k]) && fold_ok(*p, *info, q as int, *r, k),
        decreases r.fri@.len() - s,
    {
        if !r.fri[s] {
            assert(!r.fri@[s as int]);
            return false;
        }
        let want: Ext = expected_value(p, info, q, r.query, s as u64 + 1);
        if !ext_eq(&r.folds[s], &want) {
            assert(!(r.fri@[s as int] && fold_ok(*p, *info, q as int, *r, s as int)));
            return false;
        }
        proof {
            assert(fold_ok(*p, *info, q as int, *r, s as int));
            assert forall|k: int| 0 <= k < s + 1 implies (#[trigger] r.fri@[k]) && fold_ok(
                *p,
                *info,
                q as int,
                *r,
                k,
            ) by {
                if k < s {
                    assert(r.fri@[k] && fold_ok(*p, *info, q as int, *r, k));
                } else {
                    assert(k == s);
                }
            }
        }
        s = s + 1;
    }
    true
}

fn quad_eq(a: &[u64; 4], b: &[u64; 4]) -> (r: bool)
    ensures
        r == quad_same(*a, *b),
{
    let r: bool = field_eq(a[0], b[0]) && field_eq(a[1], b[1]) && field_eq(a[2], b[2]) && field_eq(
        a[3],
        b[3],
    );
    proof {
        if r {
            assert forall|i: int| 0 <= i < 4 implies eqp(#[trigger] a[i] as int, b[i] as int) by {
                assert(i == 0 || i == 1 || i == 2 || i == 3);
            }
        } else {
            assert(!(eqp(a[0] as int, b[0] as int) && eqp(a[1] as int, b[1] as int) && eqp(
                a[2] as int,
                b[2] as int,
            ) && eqp(a[3] as int, b[3] as int)));
        }
    }
    r
}

fn all_quads_eq(a: &Vec<[u64; 4]>, b: &Vec<[u64; 4]>) -> (r: bool)
    requires
        a@.len() == b@.len(),
    ensures
        r == forall|i: int| 0 <= i < a@.len() ==> quad_same(#[trigger] a@[i], b@[i]),
{
    let mut i: usize = 0;
    while i < a.len()
        invariant
            i <= a@.len(),
            a@.len() == b@.len(),
            forall|j: int| 0 <= j < i ==> quad_same(#[trigger] a@[j], b@[j]),
        decreases a@.len() - i,
    {
        if !quad_eq(&a[i], &b[i]) {
            assert(!quad_same(a@[i as int], b@[i as int]));
            return false;
        }
        i = i + 1;
    }
    true
}

/// Check the roots recomputed from published last levels.
pub fn check_roots(vk: &[u64], p: &ProofParts, info: &VerifierInfo, r: &Replies) -> (ok: bool)
    requires
        vk@.len() >= 4,
        parts_shaped(*p, *info),
        info.last_level_verification > 0 ==> r.stage_roots@.len() == info.n_stages + 1
            && r.fri_roots@.len() == info.n_fri_steps - 1,
    ensures
        ok == roots_valid(vk@, *p, *info, *r),
{
    if info.last_level_verification == 0 {
        return true;
    }
    let key: [u64; 4] = [vk[0], vk[1], vk[2], vk[3]];
    quad_eq(&r.constant_root, &key) && all_quads_eq(&r.stage_roots, &p.roots) && all_quads_eq(
        &r.fri_roots,
        &p.roots_fri,
    )
}

/// Check the quotient.
pub fn check_quotient(p: &ProofParts, info: &VerifierInfo, r: &Replies) -> (ok: bool)
    requires
        info.q_index + info.q_deg <= p.evals@.len(),
    ensures
        ok == quotient_valid(*p, *info, *r),
{
    let x_n: Ext = ext_square_times(&r.xi, info.n_bits);
    let q: Ext = ext_eval(&x_n, &p.evals, info.q_index, info.q_deg);
    ext_eq(&r.q_val, &q)
}

/// Check the degree of the final polynomial.
pub fn check_final(info: &VerifierInfo, coefs: &Vec<u64>) -> (ok: bool)
    requires
        verdict_ok(*info),
        coefs@.len() == 3 * pow2(final_bits(*info) as nat),
    ensures
        ok == final_valid(*info, coefs@),
{
    let n: usize = info.fri_steps.len();
    let fb: u64 = info.fri_steps[(info.n_fri_steps - 1) as usize];
    let d: u64 = fb - (info.n_bits_ext - info.n_bits);
    proof {
        lemma_shift(d);
        if d < fb {
            vstd::arithmetic::power2::lemma_pow2_strictly_increases(d as nat, fb as nat);
        }
    }
    let total: usize = coefs.len();
    let init: usize = (1u64 << d) as usize;
    let mut i: usize = 3 * init;
    while i < coefs.len()
        invariant
            3 * degree_bound(*info) <= i <= coefs@.len(),
            forall|j: int|
                3 * degree_bound(*info) <= j < i ==> residue(#[trigger] coefs@[j] as int) == 0,
        decreases coefs@.len() - i,
    {
        if coefs[i] % GOLDILOCKS_P != 0 {
            assert(residue(coefs@[i as int] as int) != 0);
            return false;
        }
        i = i + 1;
    }
    true
}

/// The verdict on a proof: whether it is accepted.
pub fn verdict(vk: &[u64], p: &ProofParts, info: &VerifierInfo, r: &Replies) -> (ok: bool)
    requires
        vk@.len() >= 4,
        verdict_ok(*info),
        parts_shaped(*p, *info),
        replies_complete(*r, *info),
    ensures
        ok == accepted(vk@, *p, *info, *r),
{
    if !check_pow(info, r.pow_hash) {
        return false;
    }
    let mut q: usize = 0;
    while q < r.queries.len()
        invariant
            q <= r.queries@.len(),
            info_ok(*info),
            parts_shaped(*p, *info),
            replies_complete(*r, *info),
            forall|k: int|
                0 <= k < q ==> query_valid(*p, *info, k, #[trigger] r.queries@[k]),
        decreases r.queries@.len() - q,
    {
        if !check_query(p, info, q, &r.queries[q]) {
            assert(!query_valid(*p, *info, q as int, r.queries@[q as int]));
            return false;
        }
        q = q + 1;
    }
    check_roots(vk, p, info, r) && check_quotient(p, info, r) && check_final(info, &r.final_coefs)
}

/// The number of nodes of a level that `n` nodes are hashed to, until it is at most `limit`.
pub open spec fn reduced(n: nat, arity: nat, limit: nat) -> nat
    decreases n,
{
    if n <= limit || arity < 2 || n < 2 {
        n
    } else {
        proof {
            lemma_div_ceil(n, arity);
        }
        reduced((n + arity - 1) as nat / arity, arity, limit)
    }
}

pub proof fn lemma_div_ceil(n: nat, arity: nat)
    requires
        arity >= 2,
        n >= 2,
    ensures
        (n + arity - 1) as nat / arity < n,
        (n + arity - 1) as nat / arity >= 1,
{
    let m = (n + arity - 1) as nat;
    vstd::arithmetic::div_mod::lemma_fundamental_div_mod(m as int, arity as int);
    vstd::arithmetic::div_mod::lemma_mod_bound(m as int, arity as int);
    let q = m / arity;
    if q >= n {
        assert(arity * q >= 2 * n + (arity - 2) * n) by (nonlinear_arith)
            requires
                q >= n,
                arity >= 2,
        ;
        assert((arity - 2) * n >= (arity - 2) * 2) by (nonlinear_arith)
            requires
                n >= 2,
                arity >= 2,
        ;
    }
    if q < 1 {
        assert(arity * q == 0) by (nonlinear_arith)
            requires
                q == 0,
        ;
    }
}

/// The number of nodes of the published last level of a tree over `2^bits` leaves: levels are
/// hashed until at most `arity^last_level` nodes are left.
pub fn last_level_nodes(bits: u64, arity: u64, limit: u64) -> (r: u64)
    requires
        bits < 64,
        arity >= 2,
        limit >= 1,
    ensures
        r == reduced(pow2(bits as nat), arity as nat, limit as nat),
{
    proof {
        lemma_shift(bits);
    }
    let mut n: u64 = 1u64 << bits;
    while n > limit
        invariant
            arity >= 2,
            limit >= 1,
            reduced(n as nat, arity as nat, limit as nat) == reduced(
                pow2(bits as nat),
                arity as nat,
                limit as nat,
            ),
        decreases n,
    {
        proof {
            lemma_div_ceil(n as nat, arity as nat);
            lemma_ceil(n as int, arity as int);
        }
        let quotient: u64 = n / arity;
        if n % arity == 0 {
            n = quotient;
        } else {
            n = quotient + 1;
        }
    }
    n
}

proof fn lemma_ceil(n: int, d: int)
    requires
        n >= 0,
        d >= 2,
    ensures
        n % d == 0 ==> (n + d - 1) / d == n / d,
        n % d != 0 ==> (n + d - 1) / d == n / d + 1,
        n / d <= n,
{
    vstd::arithmetic::div_mod::lemma_fundamental_div_mod(n, d);
    vstd::arithmetic::div_mod::lemma_mod_bound(n, d);
    let q = n / d;
    let m = n % d;
    if m == 0 {
        assert(n + d - 1 == q * d + (d - 1)) by (nonlinear_arith)
            requires
                n == d * q,
        ;
        vstd::arithmetic::div_mod::lemma_fundamental_div_mod_converse(n + d - 1, d, q, d - 1);
    } else {
        assert(n + d - 1 == (q + 1) * d + (m - 1)) by (nonlinear_arith)
            requires
                n == d * q + m,
        ;
        vstd::arithmetic::div_mod::lemma_fundamental_div_mod_converse(
            n + d - 1,
            d,
            q + 1,
            m - 1,
        );
    }
    vstd::arithmetic::div_mod::lemma_div_is_ordered_by_denominator(n, 1, d);
}

/// A proof is valid: it has the right size and canonical publics, and its parts are accepted.
pub open spec fn proof_valid(
    words: Seq<u64>,
    vk: Seq<u64>,
    info: VerifierInfo,
    r: Replies,
) -> bool {
    well_formed(words, vk, info) && exists|p: ProofParts|
        is_parts(p, words, info) && accepted(vk, p, info, r)
}

/// Verify a proof, given what hashing and evaluating its parts gave.
pub fn stark_verify(proof: &[u64], vk: &[u64], info: &VerifierInfo, r: &Replies) -> (ok: bool)
    requires
        verdict_ok(*info),
        size_fits(*info),
        well_formed(proof@, vk@, *info) ==> replies_complete(*r, *info),
    ensures
        ok == proof_valid(proof@, vk@, *info, *r),
{
    match split_proof(proof, vk, info) {
        None => false,
        Some(p) => {
            proof {
                lemma_parts_shaped(p, proof@, *info);
            }
            let ok: bool = verdict(vk, &p, info, r);
            proof {
                if proof_valid(proof@, vk@, *info, *r) {
                    let o = choose|o: ProofParts|
                        is_parts(o, proof@, *info) && accepted(vk@, o, *info, *r);
                    lemma_parts_shaped(o, proof@, *info);
                    lemma_same_parts(p, o, proof@, vk@, *info, *r);
                }
            }
            ok
        },
    }
}

/// The same values are opened and folded.
spec fn same_values(p: ProofParts, o: ProofParts, info: VerifierInfo) -> bool {
    &&& p.roots@ == o.roots@
    &&& p.roots_fri@ == o.roots_fri@
    &&& p.evals@ == o.evals@
    &&& p.final_pol@ == o.final_pol@
    &&& forall|i: int, q: int|
        0 <= i < info.n_fri_steps - 1 && 0 <= q < info.n_fri_queries ==> (
        #[trigger] p.fri@[i].vals@[q])@ == o.fri@[i].vals@[q]@
}

proof fn lemma_same_values(p: ProofParts, o: ProofParts, words: Seq<u64>, info: VerifierInfo)
    requires
        is_parts(p, words, info),
        is_parts(o, words, info),
        parts_shaped(p, info),
        parts_shaped(o, info),
    ensures
        same_values(p, o, info),
{
    assert forall|i: int, q: int|
        0 <= i < info.n_fri_steps - 1 && 0 <= q < info.n_fri_queries implies (
    #[trigger] p.fri@[i].vals@[q])@ == o.fri@[i].vals@[q]@ by {
        assert(grid(p.fri@[i].vals@) == grid(o.fri@[i].vals@));
        assert(grid(p.fri@[i].vals@)[q] == p.fri@[i].vals@[q]@);
        assert(grid(o.fri@[i].vals@)[q] == o.fri@[i].vals@[q]@);
    }
}

proof fn lemma_same_query(
    p: ProofParts,
    o: ProofParts,
    info: VerifierInfo,
    q: int,
    r: QueryReply,
)
    requires
        info.n_fri_steps >= 1,
        same_values(p, o, info),
        0 <= q < info.n_fri_queries,
        query_valid(o, info, q, r),
    ensures
        query_valid(p, info, q, r),
{
    assert forall|s: int| 0 <= s <= info.n_fri_steps - 1 implies #[trigger] expected_at(
        p,
        info,
        q,
        r.query,
        s,
    ) == expected_at(o, info, q, r.query, s) by {
        if s < info.n_fri_steps - 1 {
            assert(p.fri@[s].vals@[q]@ == o.fri@[s].vals@[q]@);
        }
    }
    assert forall|s: int| 0 <= s < info.n_fri_steps - 1 implies (#[trigger] r.fri@[s]) && fold_ok(
        p,
        info,
        q,
        r,
        s,
    ) by {
        assert(r.fri@[s]);
        assert(fold_ok(o, info, q, r, s));
        assert(expected_at(p, info, q, r.query, s + 1) == expected_at(o, info, q, r.query, s + 1));
    }
    assert(expected_at(p, info, q, r.query, 0) == expected_at(o, info, q, r.query, 0));
}

proof fn lemma_same_parts(
    p: ProofParts,
    o: ProofParts,
    words: Seq<u64>,
    vk: Seq<u64>,
    info: VerifierInfo,
    r: Replies,
)
    requires
        info.n_fri_steps >= 1,
        is_parts(p, words, info),
        is_parts(o, words, info),
        parts_shaped(p, info),
        parts_shaped(o, info),
        accepted(vk, o, info, r),
    ensures
        accepted(vk, p, info, r),
{
    lemma_same_values(p, o, words, info);
    assert forall|q: int| 0 <= q < info.n_fri_queries implies query_valid(
        p,
        info,
        q,
        #[trigger] r.queries@[q],
    ) by {
        lemma_same_query(p, o, info, q, r.queries@[q]);
    }
}

/// The publics of a valid proof are canonical, so that no other words stand for the same ones.
pub proof fn law_publics_are_canonical(
    words: Seq<u64>,
    other: Seq<u64>,
    vk: Seq<u64>,
    info: VerifierInfo,
    r: Replies,
    s: Replies,
    i: int,
)
    requires
        proof_valid(words, vk, info, r),
        proof_valid(other, vk, info, s),
        0 <= i < words[0],
        i < other[0],
        eqp(words[1 + i] as int, other[1 + i] as int),
    ensures
        words[1 + i] < GOLDILOCKS_P,
        words[1 + i] == other[1 + i],
{
    assert(words[1 + i] < GOLDILOCKS_P && other[1 + i] < GOLDILOCKS_P);
    vstd::arithmetic::div_mod::lemma_small_mod(words[1 + i] as nat, GOLDILOCKS_P as nat);
    vstd::arithmetic::div_mod::lemma_small_mod(other[1 + i] as nat, GOLDILOCKS_P as nat);
}

} // verus!
