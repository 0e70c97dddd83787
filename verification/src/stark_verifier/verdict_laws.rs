//! What an accepted proof says of its quotient, and the arithmetic of the cubic extension that this
//! rests on.
use vstd::arithmetic::mul::{
    lemma_mul_is_associative, lemma_mul_is_distributive_add,
    lemma_mul_is_distributive_add_other_way,
};
use vstd::arithmetic::power2::pow2;
use vstd::prelude::*;

use crate::field::{eqp, lemma_eqp_add, lemma_eqp_mul, lemma_residue_eqp, residue};
use crate::stark_verifier::cubic::{
    ext_horner, ext_power, ext_product, ext_same, ext_sum, squared, Ext,
};
use crate::stark_verifier::domain::vanishing_value;
use crate::stark_verifier::proof_parts::{is_parts, ProofParts};
use crate::stark_verifier::verdict::{
    accepted, degree_bound, final_valid, group_of, position, pow_valid, proof_valid, query_valid,
    replies_complete, roots_valid, verdict_ok, Replies,
};
use crate::stark_verifier::VerifierInfo;

verus! {

/// The coefficients of a product, before they are reduced.
spec fn raw(a: (int, int, int), b: (int, int, int)) -> (int, int, int) {
    (
        a.0 * b.0 + a.1 * b.2 + a.2 * b.1,
        a.0 * b.1 + a.1 * b.0 + a.1 * b.2 + a.2 * b.1 + a.2 * b.2,
        a.0 * b.2 + a.2 * b.0 + a.1 * b.1 + a.2 * b.2,
    )
}

spec fn ints(a: Ext) -> (int, int, int) {
    (a[0] as int, a[1] as int, a[2] as int)
}

spec fn same(a: (int, int, int), b: (int, int, int)) -> bool {
    eqp(a.0, b.0) && eqp(a.1, b.1) && eqp(a.2, b.2)
}

proof fn lemma_raw_same(
    a: (int, int, int),
    b: (int, int, int),
    c: (int, int, int),
    d: (int, int, int),
)
    requires
        same(a, c),
        same(b, d),
    ensures
        same(raw(a, b), raw(c, d)),
{
    lemma_eqp_mul(a.0, c.0, b.0, d.0);
    lemma_eqp_mul(a.0, c.0, b.1, d.1);
    lemma_eqp_mul(a.0, c.0, b.2, d.2);
    lemma_eqp_mul(a.1, c.1, b.0, d.0);
    lemma_eqp_mul(a.1, c.1, b.1, d.1);
    lemma_eqp_mul(a.1, c.1, b.2, d.2);
    lemma_eqp_mul(a.2, c.2, b.0, d.0);
    lemma_eqp_mul(a.2, c.2, b.1, d.1);
    lemma_eqp_mul(a.2, c.2, b.2, d.2);
    lemma_eqp_add(a.0 * b.0, c.0 * d.0, a.1 * b.2, c.1 * d.2);
    lemma_eqp_add(a.0 * b.0 + a.1 * b.2, c.0 * d.0 + c.1 * d.2, a.2 * b.1, c.2 * d.1);
    lemma_eqp_add(a.0 * b.1, c.0 * d.1, a.1 * b.0, c.1 * d.0);
    lemma_eqp_add(a.0 * b.1 + a.1 * b.0, c.0 * d.1 + c.1 * d.0, a.1 * b.2, c.1 * d.2);
    lemma_eqp_add(
        a.0 * b.1 + a.1 * b.0 + a.1 * b.2,
        c.0 * d.1 + c.1 * d.0 + c.1 * d.2,
        a.2 * b.1,
        c.2 * d.1,
    );
    lemma_eqp_add(
        a.0 * b.1 + a.1 * b.0 + a.1 * b.2 + a.2 * b.1,
        c.0 * d.1 + c.1 * d.0 + c.1 * d.2 + c.2 * d.1,
        a.2 * b.2,
        c.2 * d.2,
    );
    lemma_eqp_add(a.0 * b.2, c.0 * d.2, a.2 * b.0, c.2 * d.0);
    lemma_eqp_add(a.0 * b.2 + a.2 * b.0, c.0 * d.2 + c.2 * d.0, a.1 * b.1, c.1 * d.1);
    lemma_eqp_add(
        a.0 * b.2 + a.2 * b.0 + a.1 * b.1,
        c.0 * d.2 + c.2 * d.0 + c.1 * d.1,
        a.2 * b.2,
        c.2 * d.2,
    );
}

proof fn lemma_product_is_raw(a: Ext, b: Ext)
    ensures
        same(ints(ext_product(a, b)), raw(ints(a), ints(b))),
        ext_product(a, b)[0] == residue(raw(ints(a), ints(b)).0),
        ext_product(a, b)[1] == residue(raw(ints(a), ints(b)).1),
        ext_product(a, b)[2] == residue(raw(ints(a), ints(b)).2),
{
    let r = raw(ints(a), ints(b));
    lemma_residue_eqp(r.0);
    lemma_residue_eqp(r.1);
    lemma_residue_eqp(r.2);
    let c3 = a[1] * b[2] + a[2] * b[1];
    let c4 = a[2] * b[2];
    assert(a[0] * b[0] + c3 == r.0);
    assert(a[0] * b[1] + a[1] * b[0] + c3 + c4 == r.1);
    assert(a[0] * b[2] + a[2] * b[0] + a[1] * b[1] + c4 == r.2);
}

/// Products of the same elements are the same words.
proof fn lemma_product_same(a: Ext, b: Ext, c: Ext, d: Ext)
    requires
        ext_same(a, c),
        ext_same(b, d),
    ensures
        ext_product(a, b) == ext_product(c, d),
{
    lemma_raw_same(ints(a), ints(b), ints(c), ints(d));
    lemma_product_is_raw(a, b);
    lemma_product_is_raw(c, d);
    assert(ext_product(a, b) =~= ext_product(c, d));
}

proof fn lemma_spread(a: int, b: int, c: int, d: int, e: int, k: int)
    ensures
        (a + b + c + d + e) * k == a * k + b * k + c * k + d * k + e * k,
{
    lemma_mul_is_distributive_add_other_way(k, a + b + c + d, e);
    lemma_mul_is_distributive_add_other_way(k, a + b + c, d);
    lemma_mul_is_distributive_add_other_way(k, a + b, c);
    lemma_mul_is_distributive_add_other_way(k, a, b);
}

proof fn lemma_spread_left(k: int, a: int, b: int, c: int, d: int, e: int)
    ensures
        k * (a + b + c + d + e) == k * a + k * b + k * c + k * d + k * e,
{
    lemma_mul_is_distributive_add(k, a + b + c + d, e);
    lemma_mul_is_distributive_add(k, a + b + c, d);
    lemma_mul_is_distributive_add(k, a + b, c);
    lemma_mul_is_distributive_add(k, a, b);
}

proof fn lemma_raw_associative(a: (int, int, int), b: (int, int, int), c: (int, int, int))
    ensures
        raw(raw(a, b), c) == raw(a, raw(b, c)),
{
    let (x, y, z) = a;
    let (u, v, w) = b;
    let (p, q, r) = c;
    assert(0 * p == 0 && 0 * q == 0 && 0 * r == 0 && x * 0 == 0 && y * 0 == 0 && z * 0 == 0);
    lemma_mul_is_associative(x, u, p);
    lemma_mul_is_associative(x, u, q);
    lemma_mul_is_associative(x, u, r);
    lemma_mul_is_associative(x, v, p);
    lemma_mul_is_associative(x, v, q);
    lemma_mul_is_associative(x, v, r);
    lemma_mul_is_associative(x, w, p);
    lemma_mul_is_associative(x, w, q);
    lemma_mul_is_associative(x, w, r);
    lemma_mul_is_associative(y, u, p);
    lemma_mul_is_associative(y, u, q);
    lemma_mul_is_associative(y, u, r);
    lemma_mul_is_associative(y, v, p);
    lemma_mul_is_associative(y, v, q);
    lemma_mul_is_associative(y, v, r);
    lemma_mul_is_associative(y, w, p);
    lemma_mul_is_associative(y, w, q);
    lemma_mul_is_associative(y, w, r);
    lemma_mul_is_associative(z, u, p);
    lemma_mul_is_associative(z, u, q);
    lemma_mul_is_associative(z, u, r);
    lemma_mul_is_associative(z, v, p);
    lemma_mul_is_associative(z, v, q);
    lemma_mul_is_associative(z, v, r);
    lemma_mul_is_associative(z, w, p);
    lemma_mul_is_associative(z, w, q);
    lemma_mul_is_associative(z, w, r);
    lemma_spread(x * u, y * w, z * v, 0, 0, p);
    lemma_spread(x * u, y * w, z * v, 0, 0, q);
    lemma_spread(x * u, y * w, z * v, 0, 0, r);
    lemma_spread_left(x, u * p, v * r, w * q, 0, 0);
    lemma_spread_left(y, u * p, v * r, w * q, 0, 0);
    lemma_spread_left(z, u * p, v * r, w * q, 0, 0);
    lemma_spread(x * v, y * u, y * w, z * v, z * w, p);
    lemma_spread(x * v, y * u, y * w, z * v, z * w, q);
    lemma_spread(x * v, y * u, y * w, z * v, z * w, r);
    lemma_spread_left(x, u * q, v * p, v * r, w * q, w * r);
    lemma_spread_left(y, u * q, v * p, v * r, w * q, w * r);
    lemma_spread_left(z, u * q, v * p, v * r, w * q, w * r);
    lemma_spread(x * w, z * u, y * v, z * w, 0, p);
    lemma_spread(x * w, z * u, y * v, z * w, 0, q);
    lemma_spread(x * w, z * u, y * v, z * w, 0, r);
    lemma_spread_left(x, u * r, w * p, v * q, w * r, 0);
    lemma_spread_left(y, u * r, w * p, v * q, w * r, 0);
    lemma_spread_left(z, u * r, w * p, v * q, w * r, 0);
}

/// Products in the extension can be taken in any order.
pub proof fn law_product_associative(a: Ext, b: Ext, c: Ext)
    ensures
        ext_product(ext_product(a, b), c) == ext_product(a, ext_product(b, c)),
{
    let ab = ext_product(a, b);
    let bc = ext_product(b, c);
    lemma_product_is_raw(a, b);
    lemma_product_is_raw(b, c);
    lemma_product_is_raw(ab, c);
    lemma_product_is_raw(a, bc);
    lemma_raw_same(ints(ab), ints(c), raw(ints(a), ints(b)), ints(c));
    lemma_raw_same(ints(a), ints(bc), ints(a), raw(ints(b), ints(c)));
    lemma_raw_associative(ints(a), ints(b), ints(c));
    assert(ext_product(ab, c) =~= ext_product(a, bc));
}

proof fn lemma_raw_one(a: (int, int, int))
    ensures
        raw((1, 0, 0), a) == a,
        raw((0, 1, 0), a) == (a.2, a.0 + a.2, a.1),
        raw((0, 0, 1), a) == (a.1, a.1 + a.2, a.0 + a.2),
{
    let (p, q, r) = a;
    assert(1 * p == p && 1 * q == q && 1 * r == r && 0 * p == 0 && 0 * q == 0 && 0 * r == 0);
}

/// The extension is by a root `x` of `x^3 - x - 1`: its cube is `x + 1`. One is neutral, and the
/// order of factors does not matter.
pub proof fn law_product_in_extension(a: Ext, b: Ext)
    ensures
        ext_product(ext_product([0, 1, 0], [0, 1, 0]), [0, 1, 0]) == [1u64, 1, 0],
        ext_same(ext_product([1, 0, 0], a), a),
        ext_product(a, b) == ext_product(b, a),
{
    let x: Ext = [0, 1, 0];
    let xx: Ext = [0, 0, 1];
    assert(ints(x) == (0int, 1int, 0int) && ints(xx) == (0int, 0int, 1int));
    lemma_raw_one((0, 1, 0));
    assert(raw((0, 1, 0), (0, 1, 0)) == (0int, 0int, 1int));
    assert(raw((0, 0, 1), (0, 1, 0)) == (1int, 1int, 0int));
    vstd::arithmetic::div_mod::lemma_small_mod(0, crate::field::GOLDILOCKS_P as nat);
    vstd::arithmetic::div_mod::lemma_small_mod(1, crate::field::GOLDILOCKS_P as nat);
    lemma_product_is_raw(x, x);
    assert(ext_product(x, x) =~= xx);
    lemma_product_is_raw(xx, x);
    let cube: Ext = [1, 1, 0];
    assert(ext_product(xx, x) =~= cube);
    let one: Ext = [1, 0, 0];
    lemma_product_is_raw(one, a);
    assert(ints(one) == (1int, 0int, 0int));
    lemma_raw_one(ints(a));
    lemma_product_is_raw(a, b);
    lemma_product_is_raw(b, a);
    assert(raw(ints(a), ints(b)) == raw(ints(b), ints(a))) by {
        let (p, q, r) = ints(a);
        let (u, v, w) = ints(b);
        assert(p * u == u * p && p * v == v * p && p * w == w * p && q * u == u * q && q * v == v
            * q && q * w == w * q && r * u == u * r && r * v == v * r && r * w == w * r)
            by (nonlinear_arith);
    }
    assert(ext_product(a, b) =~= ext_product(b, a));
}

proof fn lemma_power_canonical(x: Ext, n: nat)
    ensures
        forall|y: Ext|
            ext_same(y, ext_power(x, n)) && y[0] < crate::field::GOLDILOCKS_P && y[1]
                < crate::field::GOLDILOCKS_P && y[2] < crate::field::GOLDILOCKS_P ==> y == ext_power(
                x,
                n,
            ),
        ext_power(x, n)[0] < crate::field::GOLDILOCKS_P,
        ext_power(x, n)[1] < crate::field::GOLDILOCKS_P,
        ext_power(x, n)[2] < crate::field::GOLDILOCKS_P,
{
    let e = ext_power(x, n);
    if n > 0 {
        let b = ext_power(x, (n - 1) as nat);
        lemma_product_is_raw(b, x);
        let r = raw(ints(b), ints(x));
        lemma_residue_eqp(r.0);
        lemma_residue_eqp(r.1);
        lemma_residue_eqp(r.2);
    }
    assert forall|y: Ext|
        ext_same(y, e) && y[0] < crate::field::GOLDILOCKS_P && y[1] < crate::field::GOLDILOCKS_P
            && y[2] < crate::field::GOLDILOCKS_P implies y == e by {
        assert(y =~= e);
    }
}

/// Powers add their exponents up.
pub proof fn law_powers_add(x: Ext, m: nat, n: nat)
    ensures
        ext_power(x, m + n) == ext_product(ext_power(x, m), ext_power(x, n)),
    decreases n,
{
    if n == 0 {
        let p = ext_power(x, m);
        let one: Ext = [1, 0, 0];
        law_product_in_extension(p, one);
        lemma_power_canonical(x, m);
        lemma_product_is_raw(p, one);
        let r = raw(ints(p), ints(one));
        lemma_residue_eqp(r.0);
        lemma_residue_eqp(r.1);
        lemma_residue_eqp(r.2);
        assert(ext_product(p, one) == p);
    } else {
        law_powers_add(x, m, (n - 1) as nat);
        law_product_associative(ext_power(x, m), ext_power(x, (n - 1) as nat), x);
        assert((m + n - 1) as nat == m + (n - 1) as nat);
    }
}

proof fn lemma_squared_is_power(x: Ext, n: nat)
    ensures
        ext_same(squared(x, n), ext_power(x, pow2(n))),
    decreases n,
{
    if n == 0 {
        vstd::arithmetic::power2::lemma2_to64();
        let one: Ext = [1, 0, 0];
        law_product_in_extension(x, x);
        assert(ext_power(x, 0) == one);
        assert(ext_power(x, 1) == ext_product(one, x));
    } else {
        let m = (n - 1) as nat;
        lemma_squared_is_power(x, m);
        vstd::arithmetic::power2::lemma_pow2_unfold(n);
        law_powers_add(x, pow2(m), pow2(m));
        assert(pow2(n) == pow2(m) + pow2(m));
        lemma_product_same(
            squared(x, m),
            squared(x, m),
            ext_power(x, pow2(m)),
            ext_power(x, pow2(m)),
        );
    }
}

proof fn lemma_power_of_power(x: Ext, y: Ext, k: nat, i: nat)
    requires
        ext_same(y, ext_power(x, k)),
    ensures
        ext_power(y, i) == ext_power(x, i * k),
    decreases i,
{
    if i == 0 {
        assert(i * k == 0) by (nonlinear_arith)
            requires
                i == 0,
        ;
    } else {
        let j = (i - 1) as nat;
        lemma_power_of_power(x, y, k, j);
        assert(i * k == j * k + k) by (nonlinear_arith)
            requires
                i == j + 1,
        ;
        law_powers_add(x, j * k, k);
        lemma_product_same(ext_power(y, j), y, ext_power(x, j * k), ext_power(x, k));
    }
}

/// The sum of the pieces `c[0] + x^step * c[1] + x^(2 * step) * c[2] + ..`.
pub open spec fn pieces_sum(x: Ext, step: nat, c: Seq<Ext>) -> Ext
    decreases c.len(),
{
    if c.len() == 0 {
        [0, 0, 0]
    } else {
        ext_sum(
            pieces_sum(x, step, c.drop_last()),
            ext_product(ext_power(x, ((c.len() - 1) * step) as nat), c.last()),
        )
    }
}

proof fn lemma_horner_is_sum(x: Ext, y: Ext, step: nat, c: Seq<Ext>, first: int, n: nat)
    requires
        ext_same(y, ext_power(x, step)),
        0 <= first,
        first + n <= c.len(),
    ensures
        ext_horner(y, c, first, n) == pieces_sum(x, step, c.subrange(first, first + n)),
    decreases n,
{
    let d = c.subrange(first, first + n);
    if n > 0 {
        let m = (n - 1) as nat;
        assert(d.drop_last() =~= c.subrange(first, first + m));
        assert(d.last() == c[first + n - 1]);
        lemma_horner_is_sum(x, y, step, c, first, m);
        lemma_power_of_power(x, y, step, m);
    }
}

/// The quotient of an accepted proof is the sum of its pieces, each moved by as many powers of the
/// evaluation point as the trace has rows: a proof that passes every other check is accepted exactly
/// where the constraints' value is that sum.
pub proof fn law_quotient_recombined(vk: Seq<u64>, p: ProofParts, info: VerifierInfo, r: Replies)
    requires
        info.q_index + info.q_deg <= p.evals@.len(),
        pow_valid(info, r.pow_hash),
        forall|q: int|
            0 <= q < info.n_fri_queries ==> query_valid(p, info, q, #[trigger] r.queries@[q]),
        roots_valid(vk, p, info, r),
        final_valid(info, r.final_coefs@),
    ensures
        accepted(vk, p, info, r) == ext_same(
            r.q_val,
            pieces_sum(
                r.xi,
                pow2(info.n_bits as nat),
                p.evals@.subrange(info.q_index as int, info.q_index + info.q_deg),
            ),
        ),
{
    lemma_squared_is_power(r.xi, info.n_bits as nat);
    lemma_horner_is_sum(
        r.xi,
        squared(r.xi, info.n_bits as nat),
        pow2(info.n_bits as nat),
        p.evals@,
        info.q_index as int,
        info.q_deg as nat,
    );
}

/// Words that are taken for a valid proof hold a quotient of two pieces only where it is the first
/// piece plus the second times the evaluation point to the power of the number of rows.
pub proof fn law_two_pieces(
    words: Seq<u64>,
    vk: Seq<u64>,
    info: VerifierInfo,
    r: Replies,
    p: ProofParts,
)
    requires
        proof_valid(words, vk, info, r),
        is_parts(p, words, info),
        p.evals@.len() == info.n_evals,
        info.q_index + info.q_deg <= info.n_evals,
        info.q_deg == 2,
    ensures
        ext_same(
            r.q_val,
            ext_sum(
                p.evals@[info.q_index as int],
                ext_product(
                    ext_power(r.xi, pow2(info.n_bits as nat)),
                    p.evals@[info.q_index + 1],
                ),
            ),
        ),
{
    let o = choose|o: ProofParts| is_parts(o, words, info) && accepted(vk, o, info, r);
    assert(o.evals@ == p.evals@);
    law_quotient_recombined(vk, o, info, r);
    let c = p.evals@.subrange(info.q_index as int, info.q_index + info.q_deg);
    let x = r.xi;
    let step = pow2(info.n_bits as nat);
    let one: Ext = [1, 0, 0];
    let zero: Ext = [0, 0, 0];
    assert(c.drop_last().drop_last() =~= Seq::empty());
    assert(c.drop_last().last() == c[0]);
    assert(((c.drop_last().len() - 1) * step) as nat == 0) by (nonlinear_arith)
        requires
            c.drop_last().len() == 1,
    ;
    assert(((c.len() - 1) * step) as nat == step) by (nonlinear_arith)
        requires
            c.len() == 2,
    ;
    assert(ext_power(x, 0) == one);
    law_product_in_extension(c[0], c[0]);
    let first = pieces_sum(x, step, c.drop_last());
    let piece = ext_product(one, c[0]);
    assert(pieces_sum(x, step, c.drop_last().drop_last()) == zero);
    assert(first == ext_sum(zero, piece));
    let second = ext_product(ext_power(x, step), c[1]);
    assert(pieces_sum(x, step, c) == ext_sum(first, second));
    lemma_sum_same(zero, piece, zero, c[0]);
    lemma_zero_sum(c[0]);
    lemma_sum_same(first, second, c[0], second);
}

proof fn lemma_zero_sum(a: Ext)
    ensures
        ext_same(ext_sum([0, 0, 0], a), a),
{
    lemma_residue_eqp(a[0] as int);
    lemma_residue_eqp(a[1] as int);
    lemma_residue_eqp(a[2] as int);
}

proof fn lemma_sum_same(a: Ext, b: Ext, c: Ext, d: Ext)
    requires
        ext_same(a, c),
        ext_same(b, d),
    ensures
        ext_sum(a, b) == ext_sum(c, d),
{
    lemma_eqp_add(a[0] as int, c[0] as int, b[0] as int, d[0] as int);
    lemma_eqp_add(a[1] as int, c[1] as int, b[1] as int, d[1] as int);
    lemma_eqp_add(a[2] as int, c[2] as int, b[2] as int, d[2] as int);
    assert(ext_sum(a, b) =~= ext_sum(c, d));
}

/// The work of an accepted proof leaves the upper `pow_bits` bits of the hash zero.
pub proof fn law_work_clears_bits(vk: Seq<u64>, p: ProofParts, info: VerifierInfo, r: Replies)
    requires
        verdict_ok(info),
    ensures
        accepted(vk, p, info, r) ==> r.pow_hash * pow2(info.pow_bits as nat)
            < 0x1_0000_0000_0000_0000,
        pow_valid(info, r.pow_hash) == (r.pow_hash * pow2(info.pow_bits as nat)
            < 0x1_0000_0000_0000_0000),
{
    let a = pow2((64 - info.pow_bits) as nat) as int;
    let b = pow2(info.pow_bits as nat) as int;
    let h = r.pow_hash as int;
    vstd::arithmetic::power2::lemma_pow2_adds((64 - info.pow_bits) as nat, info.pow_bits as nat);
    vstd::arithmetic::power2::lemma2_to64();
    vstd::arithmetic::power2::lemma_pow2_pos(info.pow_bits as nat);
    assert((h < a) == (h * b < a * b)) by (nonlinear_arith)
        requires
            b > 0,
    ;
}

/// The final polynomial of an accepted proof has the degree of a trace: of its `2^k` coefficients,
/// `k` being the bits of the last FRI step, only as many as the blowup leaves may differ from zero.
/// The blowup is `2^(n_bits_ext - n_bits)`.
pub proof fn law_final_degree(vk: Seq<u64>, p: ProofParts, info: VerifierInfo, r: Replies, j: int)
    requires
        verdict_ok(info),
        replies_complete(r, info),
        accepted(vk, p, info, r),
        0 <= j < pow2(info.fri_steps@[info.n_fri_steps - 1] as nat),
        j * pow2((info.n_bits_ext - info.n_bits) as nat) >= pow2(
            info.fri_steps@[info.n_fri_steps - 1] as nat,
        ),
    ensures
        residue(r.final_coefs@[3 * j] as int) == 0,
        residue(r.final_coefs@[3 * j + 1] as int) == 0,
        residue(r.final_coefs@[3 * j + 2] as int) == 0,
{
    let k = info.fri_steps@[info.n_fri_steps - 1] as nat;
    let e = (info.n_bits_ext - info.n_bits) as nat;
    let d = degree_bound(info);
    let m = pow2(e) as int;
    vstd::arithmetic::power2::lemma_pow2_adds((k - e) as nat, e);
    vstd::arithmetic::power2::lemma_pow2_pos(e);
    assert(d * m == pow2(k));
    assert(j >= d) by (nonlinear_arith)
        requires
            j * m >= d * m,
            m > 0,
    ;
}

/// Every other coefficient of the final polynomial is free: replies that are accepted still are
/// with any other words for it.
pub proof fn law_low_coefficients_are_free(
    vk: Seq<u64>,
    p: ProofParts,
    info: VerifierInfo,
    r: Replies,
    o: Replies,
)
    requires
        verdict_ok(info),
        replies_complete(r, info),
        accepted(vk, p, info, r),
        o.final_coefs@.len() == r.final_coefs@.len(),
        o == (Replies { final_coefs: o.final_coefs, ..r }),
        forall|j: int, c: int|
            0 <= c < 3 && 0 <= j < pow2(info.fri_steps@[info.n_fri_steps - 1] as nat) && j * pow2(
                (info.n_bits_ext - info.n_bits) as nat,
            ) >= pow2(info.fri_steps@[info.n_fri_steps - 1] as nat) ==> #[trigger] o.final_coefs@[3
                * j + c] == r.final_coefs@[3 * j + c],
    ensures
        accepted(vk, p, info, o),
{
    let k = info.fri_steps@[info.n_fri_steps - 1] as nat;
    let e = (info.n_bits_ext - info.n_bits) as nat;
    let d = degree_bound(info);
    let m = pow2(e) as int;
    vstd::arithmetic::power2::lemma_pow2_adds((k - e) as nat, e);
    vstd::arithmetic::power2::lemma_pow2_pos(e);
    assert forall|i: int| 3 * d <= i < o.final_coefs@.len() implies residue(
        #[trigger] o.final_coefs@[i] as int,
    ) == 0 by {
        let j = i / 3;
        let c = i % 3;
        assert(i == 3 * j + c);
        assert(j >= d);
        assert(j * m >= d * m) by (nonlinear_arith)
            requires
                j >= d,
                m > 0,
        ;
        assert(o.final_coefs@[3 * j + c] == r.final_coefs@[3 * j + c]);
    }
    assert forall|q: int| 0 <= q < info.n_fri_queries implies query_valid(
        p,
        info,
        q,
        #[trigger] o.queries@[q],
    ) by {
        assert(query_valid(p, info, q, r.queries@[q]));
    }
}

/// Folding keeps a query where it is: its position in a domain is its position in the folded domain
/// plus the number of its group times the size of the folded domain.
pub proof fn law_positions_fold(query: u64, bits: u64, to: u64)
    requires
        to <= bits,
    ensures
        0 <= position(query, to) < pow2(to as nat),
        0 <= group_of(position(query, bits), to) < pow2((bits - to) as nat),
        position(query, bits) == pow2(to as nat) * group_of(position(query, bits), to) + position(
            query,
            to,
        ),
        query < pow2(bits as nat) ==> position(query, bits) == query,
{
    let n = pow2(bits as nat) as int;
    let d = pow2(to as nat) as int;
    let m = pow2((bits - to) as nat) as int;
    let pos = position(query, bits);
    vstd::arithmetic::power2::lemma_pow2_pos(bits as nat);
    vstd::arithmetic::power2::lemma_pow2_pos(to as nat);
    vstd::arithmetic::power2::lemma_pow2_pos((bits - to) as nat);
    vstd::arithmetic::power2::lemma_pow2_adds(to as nat, (bits - to) as nat);
    vstd::arithmetic::div_mod::lemma_mod_bound(query as int, n);
    vstd::arithmetic::div_mod::lemma_mod_bound(query as int, d);
    vstd::arithmetic::div_mod::lemma_fundamental_div_mod(pos, d);
    vstd::arithmetic::div_mod::lemma_mod_mod(query as int, d, m);
    vstd::arithmetic::div_mod::lemma_div_pos_is_pos(pos, d);
    vstd::arithmetic::div_mod::lemma_multiply_divide_lt(pos, d, m);
    if query < n {
        vstd::arithmetic::div_mod::lemma_small_mod(query as nat, n as nat);
    }
}

/// The polynomial that vanishes on every row is `x^(2^n_bits) - 1`: plus one, its value is the
/// evaluation point to the power of the number of rows.
pub proof fn law_vanishing(xi: Ext, n_bits: nat)
    ensures
        ext_same(ext_sum(vanishing_value(xi, n_bits), [1, 0, 0]), ext_power(xi, pow2(n_bits))),
{
    let s = squared(xi, n_bits);
    let v = vanishing_value(xi, n_bits);
    let one: Ext = [1, 0, 0];
    lemma_squared_is_power(xi, n_bits);
    let w = s[0] + residue(-1);
    lemma_residue_eqp(-1);
    lemma_residue_eqp(w);
    assert(v[0] == residue(w) && v[1] == s[1] && v[2] == s[2]);
    lemma_eqp_add(s[0] as int, s[0] as int, residue(-1), -1);
    lemma_eqp_add(residue(w), s[0] - 1, 1, 1);
    lemma_residue_eqp(v[0] + one[0]);
    lemma_residue_eqp(v[1] + one[1]);
    lemma_residue_eqp(v[2] + one[2]);
}

} // verus!
