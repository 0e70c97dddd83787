//! The cubic extension of the Goldilocks field by a root of `x^3 - x - 1`.
use vstd::prelude::*;

use crate::field::{addp, eqp, mulp, residue, GOLDILOCKS_P};

verus! {

/// An element of the extension: the coefficients of `1`, `x` and `x^2`.
pub type Ext = [u64; 3];

/// The same field element, whatever the representatives.
pub fn field_eq(a: u64, b: u64) -> (r: bool)
    ensures
        r == eqp(a as int, b as int),
{
    a % GOLDILOCKS_P == b % GOLDILOCKS_P
}

/// The same extension element, whatever the representatives.
pub open spec fn ext_same(a: Ext, b: Ext) -> bool {
    eqp(a[0] as int, b[0] as int) && eqp(a[1] as int, b[1] as int) && eqp(a[2] as int, b[2] as int)
}

/// The same extension element, whatever the representatives.
pub fn ext_eq(a: &Ext, b: &Ext) -> (r: bool)
    ensures
        r == ext_same(*a, *b),
{
    field_eq(a[0], b[0]) && field_eq(a[1], b[1]) && field_eq(a[2], b[2])
}

/// Sum.
pub open spec fn ext_sum(a: Ext, b: Ext) -> Ext {
    [
        residue(a[0] + b[0]) as u64,
        residue(a[1] + b[1]) as u64,
        residue(a[2] + b[2]) as u64,
    ]
}

/// Sum.
pub fn ext_add(a: &Ext, b: &Ext) -> (r: Ext)
    ensures
        r == ext_sum(*a, *b),
{
    [addp(a[0], b[0]), addp(a[1], b[1]), addp(a[2], b[2])]
}

/// Product: `x^3 = x + 1` and `x^4 = x^2 + x`.
pub open spec fn ext_product(a: Ext, b: Ext) -> Ext {
    let c3 = a[1] * b[2] + a[2] * b[1];
    let c4 = a[2] * b[2];
    [
        residue(a[0] * b[0] + c3) as u64,
        residue(a[0] * b[1] + a[1] * b[0] + c3 + c4) as u64,
        residue(a[0] * b[2] + a[2] * b[0] + a[1] * b[1] + c4) as u64,
    ]
}

proof fn lemma_sum_of_residues(x: int, y: int)
    ensures
        residue(residue(x) + residue(y)) == residue(x + y),
        residue(residue(x) + y) == residue(x + y),
{
    crate::field::lemma_residue_eqp(x);
    crate::field::lemma_residue_eqp(y);
    crate::field::lemma_eqp_add(residue(x), x, residue(y), y);
    crate::field::lemma_eqp_add(residue(x), x, y, y);
}

/// Product.
pub fn ext_mul(a: &Ext, b: &Ext) -> (r: Ext)
    ensures
        r == ext_product(*a, *b),
{
    let m00: u64 = mulp(a[0], b[0]);
    let m01: u64 = mulp(a[0], b[1]);
    let m02: u64 = mulp(a[0], b[2]);
    let m10: u64 = mulp(a[1], b[0]);
    let m11: u64 = mulp(a[1], b[1]);
    let m12: u64 = mulp(a[1], b[2]);
    let m20: u64 = mulp(a[2], b[0]);
    let m21: u64 = mulp(a[2], b[1]);
    let m22: u64 = mulp(a[2], b[2]);
    let c3: u64 = addp(m12, m21);
    proof {
        let p00 = a[0] * b[0];
        let p01 = a[0] * b[1];
        let p02 = a[0] * b[2];
        let p10 = a[1] * b[0];
        let p11 = a[1] * b[1];
        let p12 = a[1] * b[2];
        let p20 = a[2] * b[0];
        let p21 = a[2] * b[1];
        let p22 = a[2] * b[2];
        lemma_sum_of_residues(p12, p21);
        lemma_sum_of_residues(p00, p12 + p21);
        lemma_sum_of_residues(p01, p10);
        lemma_sum_of_residues(p01 + p10, p12 + p21);
        lemma_sum_of_residues(p01 + p10 + (p12 + p21), p22);
        lemma_sum_of_residues(p02, p20);
        lemma_sum_of_residues(p02 + p20, p11);
        lemma_sum_of_residues(p02 + p20 + p11, p22);
    }
    [
        addp(m00, c3),
        addp(addp(addp(m01, m10), c3), m22),
        addp(addp(addp(m02, m20), m11), m22),
    ]
}

/// `x` squared `n` times: `x` to the power `2^n`.
pub open spec fn squared(x: Ext, n: nat) -> Ext
    decreases n,
{
    if n == 0 {
        x
    } else {
        ext_product(squared(x, (n - 1) as nat), squared(x, (n - 1) as nat))
    }
}

/// `x` squared `n` times: `x` to the power `2^n`.
pub fn ext_square_times(x: &Ext, n: u64) -> (r: Ext)
    ensures
        r == squared(*x, n as nat),
{
    let mut r: Ext = *x;
    let mut i: u64 = 0;
    while i < n
        invariant
            i <= n,
            r == squared(*x, i as nat),
        decreases n - i,
    {
        let s: Ext = ext_mul(&r, &r);
        r = s;
        i = i + 1;
    }
    r
}

/// `x` to the power `n`.
pub open spec fn ext_power(x: Ext, n: nat) -> Ext
    decreases n,
{
    if n == 0 {
        [1, 0, 0]
    } else {
        ext_product(ext_power(x, (n - 1) as nat), x)
    }
}

/// The value at `x` of the polynomial with the first `n` coefficients from `first` on.
pub open spec fn ext_horner(x: Ext, coefs: Seq<Ext>, first: int, n: nat) -> Ext
    decreases n,
{
    if n == 0 {
        [0, 0, 0]
    } else {
        ext_sum(
            ext_horner(x, coefs, first, (n - 1) as nat),
            ext_product(ext_power(x, (n - 1) as nat), coefs[first + n - 1]),
        )
    }
}

/// The value at `x` of the polynomial with `n` coefficients from `first` on.
pub fn ext_eval(x: &Ext, coefs: &Vec<Ext>, first: u64, n: u64) -> (r: Ext)
    requires
        first + n <= coefs@.len(),
    ensures
        r == ext_horner(*x, coefs@, first as int, n as nat),
{
    let total: usize = coefs.len();
    let mut acc: Ext = [1, 0, 0];
    let mut sum: Ext = [0, 0, 0];
    let mut i: u64 = 0;
    while i < n
        invariant
            i <= n,
            first + n <= coefs@.len(),
            coefs@.len() == total,
            acc == ext_power(*x, i as nat),
            sum == ext_horner(*x, coefs@, first as int, i as nat),
        decreases n - i,
    {
        let t: Ext = ext_mul(&acc, &coefs[(first + i) as usize]);
        let s: Ext = ext_add(&sum, &t);
        sum = s;
        let m: Ext = ext_mul(&acc, x);
        acc = m;
        i = i + 1;
    }
    sum
}

} // verus!
