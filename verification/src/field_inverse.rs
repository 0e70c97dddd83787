//! Inverses in the Goldilocks field.
use vstd::prelude::*;

use crate::field::{eqp, lemma_eqp_mul, lemma_residue_eqp, residue, GOLDILOCKS_P};
use crate::field_prime::law_modulus_prime;

verus! {

/// `r` is the canonical inverse of `x`.
pub open spec fn is_inverse(x: int, r: int) -> bool {
    0 <= r < GOLDILOCKS_P && eqp(x * r, 1)
}

/// The canonical inverse of a field element.
pub open spec fn inverse(x: int) -> int {
    choose|r: int| is_inverse(x, r)
}

/// The inverse of a field element that is not zero.
pub fn invp(x: u64) -> (r: u64)
    requires
        residue(x as int) != 0,
    ensures
        is_inverse(x as int, r as int),
        r == inverse(x as int),
{
    let a: u64 = x % GOLDILOCKS_P;
    let ghost p = GOLDILOCKS_P as int;
    proof {
        lemma_residue_eqp(x as int);
    }
    // Euclid's algorithm on the modulus and `a`, with the factor of `a` in each remainder.
    let mut r0: u64 = GOLDILOCKS_P;
    let mut r1: u64 = a;
    let mut s0: i128 = 0;
    let mut s1: i128 = 1;
    let ghost mut t0: int = 1;
    let ghost mut t1: int = 0;
    proof {
        assert(abs(0) == 0 && abs(1) == 1);
        assert(r1 * abs(0) == 0) by (nonlinear_arith)
            requires
                abs(0) == 0,
        ;
        assert(r0 * abs(1) == r0) by (nonlinear_arith)
            requires
                abs(1) == 1,
        ;
    }
    while r1 != 0
        invariant
            a == residue(x as int),
            0 < a < p,
            p == GOLDILOCKS_P,
            r1 < r0 <= p,
            s0 * a + t0 * p == r0,
            s1 * a + t1 * p == r1,
            s0 * t1 - s1 * t0 == 1 || s0 * t1 - s1 * t0 == -1,
            -p <= s0 <= p,
            -p <= s1 <= p,
            s0 * s1 <= 0,
            r1 * abs(s0 as int) + r0 * abs(s1 as int) == p,
        decreases r1,
    {
        let q: u64 = r0 / r1;
        let r2: u64 = r0 % r1;
        proof {
            vstd::arithmetic::div_mod::lemma_fundamental_div_mod(r0 as int, r1 as int);
            vstd::arithmetic::div_mod::lemma_mod_bound(r0 as int, r1 as int);
            lemma_step(
                r0 as int,
                r1 as int,
                r2 as int,
                q as int,
                s0 as int,
                s1 as int,
                t0,
                t1,
                a as int,
                p,
            );
            assert(-p <= q * s1 <= p) by (nonlinear_arith)
                requires
                    0 <= q <= p,
                    abs(q * s1) <= p,
            ;
        }
        let qs: i128 = (q as i128) * s1;
        let s2: i128 = s0 - qs;
        proof {
            let t2 = t0 - q * t1;
            t0 = t1;
            t1 = t2;
        }
        s0 = s1;
        s1 = s2;
        r0 = r1;
        r1 = r2;
    }
    proof {
        lemma_last_is_one(r0 as int, s0 as int, s1 as int, t0, t1, a as int, p);
    }
    let r: u64 = if s0 < 0 {
        (s0 + GOLDILOCKS_P as i128) as u64
    } else {
        s0 as u64
    };
    proof {
        lemma_inverse(x as int, a as int, s0 as int, t0, p, r as int);
        assert(is_inverse(x as int, r as int));
        law_inverse_is_determined(x as int, r as int, inverse(x as int));
        vstd::arithmetic::div_mod::lemma_small_mod(r as nat, p as nat);
        vstd::arithmetic::div_mod::lemma_small_mod(inverse(x as int) as nat, p as nat);
    }
    r
}

spec fn abs(n: int) -> int {
    if n < 0 {
        -n
    } else {
        n
    }
}

proof fn lemma_step(
    r0: int,
    r1: int,
    r2: int,
    q: int,
    s0: int,
    s1: int,
    t0: int,
    t1: int,
    a: int,
    p: int,
)
    requires
        0 < r1 < r0 <= p,
        0 <= r2 < r1,
        q >= 0,
        r0 == r1 * q + r2,
        s0 * a + t0 * p == r0,
        s1 * a + t1 * p == r1,
        s0 * t1 - s1 * t0 == 1 || s0 * t1 - s1 * t0 == -1,
        s0 * s1 <= 0,
        r1 * abs(s0) + r0 * abs(s1) == p,
    ensures
        ({
            let s2 = s0 - q * s1;
            let t2 = t0 - q * t1;
            &&& s2 * a + t2 * p == r2
            &&& s1 * t2 - s2 * t1 == 1 || s1 * t2 - s2 * t1 == -1
            &&& s1 * s2 <= 0
            &&& r2 * abs(s1) + r1 * abs(s2) == p
            &&& -p <= s2 <= p
            &&& abs(q * s1) <= p
            &&& q <= p
        }),
{
    let s2 = s0 - q * s1;
    let t2 = t0 - q * t1;
    assert(s2 * a == s0 * a - q * (s1 * a)) by (nonlinear_arith)
        requires
            s2 == s0 - q * s1,
    ;
    assert(t2 * p == t0 * p - q * (t1 * p)) by (nonlinear_arith)
        requires
            t2 == t0 - q * t1,
    ;
    assert(q * (s1 * a) + q * (t1 * p) == q * r1) by (nonlinear_arith)
        requires
            s1 * a + t1 * p == r1,
    ;
    assert(q * r1 == r1 * q) by (nonlinear_arith);
    assert(s1 * t2 - s2 * t1 == -(s0 * t1 - s1 * t0)) by (nonlinear_arith)
        requires
            s2 == s0 - q * s1,
            t2 == t0 - q * t1,
    ;
    assert(s1 * s2 == s0 * s1 - q * (s1 * s1)) by (nonlinear_arith)
        requires
            s2 == s0 - q * s1,
    ;
    assert(q * (s1 * s1) >= 0) by (nonlinear_arith)
        requires
            q >= 0,
    ;
    assert(abs(q * s1) == q * abs(s1)) by (nonlinear_arith)
        requires
            q >= 0,
    ;
    assert(abs(s2) == abs(s0) + q * abs(s1)) by {
        if s1 == 0 {
            assert(q * s1 == 0) by (nonlinear_arith)
                requires
                    s1 == 0,
            ;
            assert(q * abs(s1) == 0) by (nonlinear_arith)
                requires
                    abs(s1) == 0,
            ;
        } else if s1 > 0 {
            assert(s0 <= 0) by (nonlinear_arith)
                requires
                    s0 * s1 <= 0,
                    s1 > 0,
            ;
            assert(q * s1 >= 0) by (nonlinear_arith)
                requires
                    q >= 0,
                    s1 > 0,
            ;
        } else {
            assert(s0 >= 0) by (nonlinear_arith)
                requires
                    s0 * s1 <= 0,
                    s1 < 0,
            ;
            assert(q * s1 <= 0) by (nonlinear_arith)
                requires
                    q >= 0,
                    s1 < 0,
            ;
            assert(q * (-s1) == -(q * s1)) by (nonlinear_arith);
        }
    }
    let x = abs(s0);
    let y = abs(s1);
    let z = abs(s2);
    assert(r2 * y + r1 * z == p) by (nonlinear_arith)
        requires
            z == x + q * y,
            r0 == r1 * q + r2,
            r1 * x + r0 * y == p,
    ;
    assert(z <= p) by (nonlinear_arith)
        requires
            r2 * y + r1 * z == p,
            r2 >= 0,
            y >= 0,
            r1 >= 1,
            z >= 0,
    ;
    assert(q * y >= 0) by (nonlinear_arith)
        requires
            q >= 0,
            y >= 0,
    ;
    assert(q <= p) by (nonlinear_arith)
        requires
            r0 == r1 * q + r2,
            r2 >= 0,
            r1 >= 1,
            q >= 0,
            r0 <= p,
    ;
}

proof fn lemma_last_is_one(r0: int, s0: int, s1: int, t0: int, t1: int, a: int, p: int)
    requires
        p == GOLDILOCKS_P,
        0 < a < p,
        r0 > 0,
        s0 * a + t0 * p == r0,
        s1 * a + t1 * p == 0,
        r0 * abs(s1) == p,
        -p <= s0 <= p,
    ensures
        r0 == 1,
        -p < s0 < p,
{
    law_modulus_prime(r0, abs(s1));
    if r0 == p {
        let y = abs(s1);
        assert(y == 1) by (nonlinear_arith)
            requires
                p * y == p,
                p > 0,
        ;
        assert(a == -t1 * p || a == t1 * p) by {
            if s1 < 0 {
                assert(s1 * a == -a) by (nonlinear_arith)
                    requires
                        s1 == -1,
                ;
            } else {
                assert(s1 * a == a) by (nonlinear_arith)
                    requires
                        s1 == 1,
                ;
                assert(-t1 * p == -(t1 * p)) by (nonlinear_arith);
            }
        }
        let m = if a == t1 * p {
            t1
        } else {
            -t1
        };
        assert(false) by (nonlinear_arith)
            requires
                a == m * p,
                0 < a < p,
        ;
    }
    if s0 == p || s0 == -p {
        let m = if s0 == p {
            a + t0
        } else {
            t0 - a
        };
        assert(m * p == 1) by (nonlinear_arith)
            requires
                s0 * a + t0 * p == 1,
                (s0 == p && m == a + t0) || (s0 == -p && m == t0 - a),
        ;
        assert(false) by (nonlinear_arith)
            requires
                m * p == 1,
                p > 1,
        ;
    }
}

proof fn lemma_inverse(x: int, a: int, s: int, t: int, p: int, r: int)
    requires
        p == GOLDILOCKS_P,
        a == residue(x),
        s * a + t * p == 1,
        r == s || r == s + p,
    ensures
        eqp(x * r, 1),
{
    lemma_residue_eqp(x);
    assert(eqp(x, a));
    assert(eqp(r, s)) by {
        vstd::arithmetic::div_mod::lemma_mod_add_multiples_vanish(s, p);
    }
    lemma_eqp_mul(x, a, r, s);
    assert(a * s == 1 + (-t) * p) by (nonlinear_arith)
        requires
            s * a + t * p == 1,
    ;
    assert((-t) * p == p * (-t)) by (nonlinear_arith);
    vstd::arithmetic::div_mod::lemma_mod_multiples_vanish(-t, 1, p);
}

/// An element has one inverse.
pub proof fn law_inverse_is_determined(x: int, r: int, s: int)
    requires
        eqp(x * r, 1),
        eqp(x * s, 1),
    ensures
        eqp(r, s),
{
    lemma_eqp_mul(x * r, 1, s, s);
    lemma_eqp_mul(x * s, 1, r, r);
    assert((x * r) * s == (x * s) * r) by (nonlinear_arith);
    assert(1 * s == s && 1 * r == r);
}

/// A power of an element that is not zero is not zero.
pub proof fn lemma_power_nonzero(b: int, e: nat)
    requires
        residue(b) != 0,
    ensures
        residue(vstd::arithmetic::power::pow(b, e)) != 0,
    decreases e,
{
    reveal(vstd::arithmetic::power::pow);
    if e > 0 {
        let rest = vstd::arithmetic::power::pow(b, (e - 1) as nat);
        lemma_power_nonzero(b, (e - 1) as nat);
        if residue(b * rest) == 0 {
            crate::field_prime::law_no_zero_divisors(b, rest);
        }
    } else {
        vstd::arithmetic::div_mod::lemma_small_mod(1, GOLDILOCKS_P as nat);
    }
}

proof fn lemma_small_inverse(a: int) -> (s: int)
    requires
        0 < a < GOLDILOCKS_P,
    ensures
        eqp(s * a, 1),
    decreases a,
{
    let p = GOLDILOCKS_P as int;
    let q = p / a;
    let r = p % a;
    vstd::arithmetic::div_mod::lemma_fundamental_div_mod(p, a);
    vstd::arithmetic::div_mod::lemma_mod_bound(p, a);
    if r == 0 {
        assert(a * q == p);
        law_modulus_prime(a, q);
        if q == 1 {
            assert(a * q == a) by (nonlinear_arith)
                requires
                    q == 1,
            ;
        }
        assert(a == 1);
        1
    } else {
        let t = lemma_small_inverse(r);
        let s = -(q * t);
        assert(t * r == s * a + t * p) by (nonlinear_arith)
            requires
                p == a * q + r,
                s == -(q * t),
        ;
        assert(t * p == p * t) by (nonlinear_arith);
        vstd::arithmetic::div_mod::lemma_mod_multiples_vanish(t, s * a, p);
        s
    }
}

/// An element that is not zero has an inverse.
pub proof fn law_inverse_exists(x: int)
    requires
        residue(x) != 0,
    ensures
        is_inverse(x, inverse(x)),
{
    lemma_residue_eqp(x);
    let s = lemma_small_inverse(residue(x));
    let r = residue(s);
    lemma_residue_eqp(s);
    lemma_eqp_mul(x, residue(x), r, s);
    assert(residue(x) * s == s * residue(x)) by (nonlinear_arith);
    assert(is_inverse(x, r));
}

} // verus!
