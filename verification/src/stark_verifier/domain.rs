//! Points of the evaluation domains: where a query looks, and where openings are taken.
use vstd::arithmetic::power::pow;
use vstd::prelude::*;

use crate::field::{addp, eqp, lemma_eqp_mul, lemma_residue_eqp, mulp, neg, residue};
use crate::stark_verifier::cubic::{ext_square_times, squared, Ext};

verus! {

/// `b` to the power `e`.
pub fn powp(b: u64, e: u64) -> (r: u64)
    ensures
        r == residue(pow(b as int, e as nat)),
{
    let mut acc: u64 = 1;
    let mut base: u64 = b;
    let mut left: u64 = e;
    proof {
        assert(1 * pow(b as int, e as nat) == pow(b as int, e as nat));
    }
    while left > 0
        invariant
            acc < crate::field::GOLDILOCKS_P,
            eqp(acc * pow(base as int, left as nat), pow(b as int, e as nat)),
        decreases left,
    {
        let ghost power = pow(base as int, left as nat);
        if left % 2 == 1 {
            let ghost rest = pow(base as int, (left - 1) as nat);
            proof {
                vstd::arithmetic::power::lemma_pow_adds(base as int, 1, (left - 1) as nat);
                vstd::arithmetic::power::lemma_pow1(base as int);
                assert(power == base * rest);
                assert(acc * power == (acc * base) * rest) by (nonlinear_arith)
                    requires
                        power == base * rest,
                ;
                lemma_residue_eqp(acc * base);
                lemma_eqp_mul(residue(acc * base), acc * base, rest, rest);
            }
            acc = mulp(acc, base);
            left = left - 1;
        } else {
            let half: u64 = left / 2;
            let ghost square = pow((base * base) as int, half as nat);
            proof {
                vstd::arithmetic::power::lemma_pow_multiplies(base as int, 2, half as nat);
                vstd::arithmetic::power::lemma_square_is_pow2(base as int);
                assert(power == square);
                vstd::arithmetic::power::lemma_pow_mod_noop(
                    (base * base) as int,
                    half as nat,
                    crate::field::GOLDILOCKS_P as int,
                );
                let next = pow(residue(base * base), half as nat);
                assert(eqp(next, square));
                lemma_eqp_mul(acc as int, acc as int, next, square);
            }
            base = mulp(base, base);
            left = half;
        }
    }
    proof {
        vstd::arithmetic::power::lemma_pow0(base as int);
        assert(acc * 1 == acc);
        vstd::arithmetic::div_mod::lemma_small_mod(
            acc as nat,
            crate::field::GOLDILOCKS_P as nat,
        );
    }
    acc
}

/// The point of the shifted extended domain that a query looks at.
pub fn query_point(shift: u64, w_ext: u64, query: u64) -> (r: u64)
    ensures
        r == residue(shift * residue(pow(w_ext as int, query as nat))),
{
    mulp(shift, powp(w_ext, query))
}

/// The root that moves a row by `opening` rows: a power of `w`, or of its inverse.
pub open spec fn row_shift(w: u64, w_inv: u64, opening: i64) -> int {
    if opening < 0 {
        residue(pow(w_inv as int, (-opening) as nat))
    } else {
        residue(pow(w as int, opening as nat))
    }
}

/// The root that moves a row by `opening` rows. `w_inv` is the inverse of `w`.
pub fn opening_root(w: u64, w_inv: u64, opening: i64) -> (r: u64)
    requires
        eqp(w * w_inv, 1),
    ensures
        r == row_shift(w, w_inv, opening),
{
    if opening < 0 {
        let back: u64 = if opening == i64::MIN {
            0x8000_0000_0000_0000u64
        } else {
            (-opening) as u64
        };
        powp(w_inv, back)
    } else {
        powp(w, opening as u64)
    }
}

/// The difference between a point and the moved evaluation point.
pub open spec fn point_minus(x: u64, xi: Ext, root: u64) -> Ext {
    [
        residue(x + residue(-residue(xi[0] * root))) as u64,
        residue(-residue(xi[1] * root)) as u64,
        residue(-residue(xi[2] * root)) as u64,
    ]
}

/// The denominators of the openings at a queried point: the point less the evaluation point moved
/// by each opening.
pub open spec fn is_denominators(
    r: Seq<Ext>,
    x: u64,
    xi: Ext,
    w: u64,
    w_inv: u64,
    openings: Seq<i64>,
) -> bool {
    r.len() == openings.len() && forall|o: int|
        0 <= o < openings.len() ==> #[trigger] r[o] == point_minus(
            x,
            xi,
            row_shift(w, w_inv, openings[o]) as u64,
        )
}

/// The denominators of the openings at a queried point.
pub fn opening_denominators(x: u64, xi: &Ext, w: u64, w_inv: u64, openings: &Vec<i64>) -> (r: Vec<
    Ext,
>)
    requires
        eqp(w * w_inv, 1),
    ensures
        is_denominators(r@, x, *xi, w, w_inv, openings@),
{
    let mut out: Vec<Ext> = Vec::new();
    let mut o: usize = 0;
    while o < openings.len()
        invariant
            o <= openings@.len(),
            eqp(w * w_inv, 1),
            out@.len() == o,
            forall|k: int|
                0 <= k < o ==> #[trigger] out@[k] == point_minus(
                    x,
                    *xi,
                    row_shift(w, w_inv, openings@[k]) as u64,
                ),
        decreases openings@.len() - o,
    {
        let root: u64 = opening_root(w, w_inv, openings[o]);
        let d: Ext = [
            addp(x, neg(mulp(xi[0], root))),
            neg(mulp(xi[1], root)),
            neg(mulp(xi[2], root)),
        ];
        assert(d =~= point_minus(x, *xi, root));
        out.push(d);
        o = o + 1;
    }
    out
}

/// The polynomial that vanishes on every row, at the evaluation point.
pub open spec fn vanishing_value(xi: Ext, n_bits: nat) -> Ext {
    let p = squared(xi, n_bits);
    [residue(p[0] + residue(-1)) as u64, p[1], p[2]]
}

/// The polynomial that vanishes on every row, at the evaluation point.
pub fn vanishing(xi: &Ext, n_bits: u64) -> (r: Ext)
    ensures
        r == vanishing_value(*xi, n_bits as nat),
{
    let p: Ext = ext_square_times(xi, n_bits);
    let r: Ext = [addp(p[0], neg(1)), p[1], p[2]];
    assert(r =~= vanishing_value(*xi, n_bits as nat));
    r
}

} // verus!
