//! Goldilocks prime-field arithmetic on canonical `u64` representatives.
use vstd::prelude::*;

verus! {

/// The Goldilocks prime, `2^64 - 2^32 + 1`.
pub const GOLDILOCKS_P: u64 = 0xFFFF_FFFF_0000_0001;

/// The residue of an integer modulo the Goldilocks prime.
pub open spec fn residue(x: int) -> int {
    x % (GOLDILOCKS_P as int)
}

/// Sum modulo the Goldilocks prime.
pub fn addp(a: u64, b: u64) -> (r: u64)
    ensures
        r == residue(a + b),
        r < GOLDILOCKS_P,
{
    let s: u128 = (a as u128 + b as u128) % (GOLDILOCKS_P as u128);
    s as u64
}

/// Product modulo the Goldilocks prime.
pub fn mulp(a: u64, b: u64) -> (r: u64)
    ensures
        r == residue(a * b),
        r < GOLDILOCKS_P,
{
    proof {
        assert(a * b <= 0xFFFF_FFFF_FFFF_FFFFu64 * 0xFFFF_FFFF_FFFF_FFFFu64) by (nonlinear_arith)
            requires
                a <= 0xFFFF_FFFF_FFFF_FFFFu64,
                b <= 0xFFFF_FFFF_FFFF_FFFFu64,
        ;
        assert(0 <= a * b) by (nonlinear_arith);
    }
    let s: u128 = (a as u128 * b as u128) % (GOLDILOCKS_P as u128);
    s as u64
}

/// Additive inverse modulo the Goldilocks prime.
pub fn neg(a: u64) -> (r: u64)
    ensures
        r == residue(-(a as int)),
        r < GOLDILOCKS_P,
{
    let m: u64 = a % GOLDILOCKS_P;
    proof {
        vstd::arithmetic::div_mod::lemma_fundamental_div_mod(a as int, GOLDILOCKS_P as int);
    }
    if m == 0 {
        0
    } else {
        GOLDILOCKS_P - m
    }
}

/// Two integers stand for the same field element.
pub open spec fn eqp(a: int, b: int) -> bool {
    residue(a) == residue(b)
}

pub proof fn lemma_residue_eqp(a: int)
    ensures
        eqp(residue(a), a),
        0 <= residue(a) < GOLDILOCKS_P,
{
    vstd::arithmetic::div_mod::lemma_mod_twice(a, GOLDILOCKS_P as int);
}

pub proof fn lemma_eqp_add(a: int, b: int, c: int, d: int)
    requires
        eqp(a, b),
        eqp(c, d),
    ensures
        eqp(a + c, b + d),
{
    vstd::arithmetic::div_mod::lemma_add_mod_noop(a, c, GOLDILOCKS_P as int);
    vstd::arithmetic::div_mod::lemma_add_mod_noop(b, d, GOLDILOCKS_P as int);
}

pub proof fn lemma_eqp_sub(a: int, b: int, c: int, d: int)
    requires
        eqp(a, b),
        eqp(c, d),
    ensures
        eqp(a - c, b - d),
{
    vstd::arithmetic::div_mod::lemma_sub_mod_noop(a, c, GOLDILOCKS_P as int);
    vstd::arithmetic::div_mod::lemma_sub_mod_noop(b, d, GOLDILOCKS_P as int);
}

pub proof fn lemma_eqp_mul(a: int, b: int, c: int, d: int)
    requires
        eqp(a, b),
        eqp(c, d),
    ensures
        eqp(a * c, b * d),
{
    vstd::arithmetic::div_mod::lemma_mul_mod_noop(a, c, GOLDILOCKS_P as int);
    vstd::arithmetic::div_mod::lemma_mul_mod_noop(b, d, GOLDILOCKS_P as int);
}

} // verus!
