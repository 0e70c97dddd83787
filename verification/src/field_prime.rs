//! The field has no zero divisors: the Goldilocks modulus is prime.
//!
//! The element [`ROOT`] has `ROOT^(2^31) = -1`, so its first `2^32` powers are pairwise different
//! modulo every divisor of the modulus other than one. Every such divisor is therefore larger
//! than `2^32`, and a product of two of them would exceed the modulus.
use vstd::arithmetic::div_mod::{
    lemma_fundamental_div_mod, lemma_fundamental_div_mod_converse, lemma_mod_bound,
    lemma_mod_multiples_vanish, lemma_mul_mod_noop, lemma_small_mod, lemma_sub_mod_noop,
};
use vstd::arithmetic::power::{
    lemma_pow0, lemma_pow1, lemma_pow_adds, lemma_pow_multiplies, pow,
};
use vstd::prelude::*;

use crate::field::{residue, GOLDILOCKS_P};

verus! {

/// An element of multiplicative order `2^32`.
pub const ROOT: u64 = 1753635133440165772;

spec fn p() -> int {
    GOLDILOCKS_P as int
}

spec fn root() -> int {
    ROOT as int
}

proof fn lemma_square(e: nat, h: int, q: int, y: int)
    requires
        pow(root(), e) % p() == h,
        h * h == q * p() + y,
        0 <= y < p(),
    ensures
        pow(root(), 2 * e) % p() == y,
{
    lemma_pow_adds(root(), e, e);
    let x = pow(root(), e);
    lemma_mul_mod_noop(x, x, p());
    lemma_fundamental_div_mod_converse(h * h, p(), q, y);
}

/// `ROOT^(2^31) = -1`.
proof fn lemma_root_half()
    ensures
        pow(root(), 0x8000_0000) % p() == p() - 1,
{
    lemma_pow1(root());
    assert(root() % p() == root()) by {
        lemma_small_mod(ROOT as nat, GOLDILOCKS_P as nat);
    }
    lemma_square(1, 1753635133440165772, 166708887468903991, 4614640910117430873);
    lemma_square(2, 4614640910117430873, 1154399424049971884, 9123114210336311365);
    lemma_square(4, 9123114210336311365, 4511973093009996851, 16116352524544190054);
    lemma_square(8, 16116352524544190054, 14080361158478670879, 6414415596519834757);
    lemma_square(16, 6414415596519834757, 2230460144622294524, 1213594585890690845);
    lemma_square(32, 1213594585890690845, 79841288704448195, 17096174751763063430);
    lemma_square(64, 17096174751763063430, 15844486704156700236, 5456943929260765144);
    lemma_square(128, 5456943929260765144, 1614281465338340559, 9713644485405565297);
    lemma_square(256, 9713644485405565297, 5114988793349933654, 16905767614792059275);
    lemma_square(512, 16905767614792059275, 15493518941330557636, 5416168637041100469);
    lemma_square(1024, 5416168637041100469, 1590247178281506213, 17654865857378133588);
    lemma_square(2048, 17654865857378133588, 16896981237942002723, 3511170319078647661);
    lemma_square(4096, 3511170319078647661, 668319404399374695, 18146160046829613826);
    lemma_square(8192, 18146160046829613826, 17850473948468743512, 9306717745644682924);
    lemma_square(16384, 9306717745644682924, 4695408299218975106, 12380578893860276750);
    lemma_square(32768, 12380578893860276750, 8309256808156222390, 6115771955107415310);
    lemma_square(65536, 6115771955107415310, 2027602620068516376, 17776499369601055404);
    lemma_square(131072, 17776499369601055404, 17130607366173278638, 16207902636198568418);
    lemma_square(262144, 16207902636198568418, 14240784545824149997, 1532612707718625687);
    lemma_square(524288, 1532612707718625687, 127334216977357403, 17492915097719143606);
    lemma_square(1048576, 17492915097719143606, 16588405924890216597, 455906449640507599);
    lemma_square(2097152, 455906449640507599, 11267608529812975, 11353340290879379826);
    lemma_square(4194304, 11353340290879379826, 6987592784692205430, 1803076106186727246);
    lemma_square(8388608, 1803076106186727246, 176241586724885086, 13797081185216407910);
    lemma_square(16777216, 13797081185216407910, 10319406422896923811, 17870292113338400769);
    lemma_square(33554432, 17870292113338400769, 17311854006015885313, 549755813888);
    lemma_square(67108864, 549755813888, 16384, 70368744161280);
    lemma_square(134217728, 70368744161280, 268435455, 17293822564807737345);
    lemma_square(268435456, 17293822564807737345, 16212958654255595520, 18446744069397807105);
    lemma_square(536870912, 18446744069397807105, 18446744069381029889, 281474976710656);
    lemma_square(1073741824, 281474976710656, 4294967296, 18446744069414584320);
}

/// What holds modulo the field modulus holds modulo its divisors.
proof fn lemma_mod_divisor(x: int, y: int, r: int, h: int)
    requires
        p() == r * h,
        r > 0,
        x % p() == y % p(),
    ensures
        x % r == y % r,
{
    lemma_fundamental_div_mod(x, p());
    lemma_fundamental_div_mod(y, p());
    let a = x / p();
    let b = y / p();
    let d = a - b;
    assert(x - y == p() * d) by (nonlinear_arith)
        requires
            x == p() * a + x % p(),
            y == p() * b + y % p(),
            x % p() == y % p(),
            d == a - b,
    ;
    assert(x == (h * d) * r + y) by (nonlinear_arith)
        requires
            x - y == p() * d,
            p() == r * h,
    ;
    lemma_mod_multiples_vanish(h * d, y, r);
    assert(r * (h * d) == (h * d) * r) by (nonlinear_arith);
}

/// The odd part of `d`.
proof fn lemma_odd_part(d: nat, bound: nat) -> (r: (nat, nat))
    requires
        0 < d < pow(2, bound),
    ensures
        r.0 < bound,
        r.1 % 2 == 1,
        d == pow(2, r.0) * r.1,
    decreases bound,
{
    lemma_pow0(2);
    if bound == 0 {
        assert(false);
        (0, 0)
    } else if d % 2 == 1 {
        assert(pow(2, 0) * d == d);
        (0, d)
    } else {
        lemma_pow_adds(2, 1, (bound - 1) as nat);
        lemma_pow1(2);
        let (s, t) = lemma_odd_part(d / 2, (bound - 1) as nat);
        lemma_pow_adds(2, 1, s);
        assert(pow(2, s + 1) * t == 2 * (pow(2, s) * t)) by (nonlinear_arith)
            requires
                pow(2, s + 1) == 2 * pow(2, s),
        ;
        (s + 1, t)
    }
}

/// An odd power of something congruent to `-1` is congruent to `-1`.
proof fn lemma_odd_power(x: int, t: nat, r: int)
    requires
        r > 1,
        x % r == r - 1,
        t % 2 == 1,
    ensures
        pow(x, t) % r == r - 1,
    decreases t,
{
    if t == 1 {
        lemma_pow1(x);
    } else {
        let u = (t - 2) as nat;
        lemma_odd_power(x, u, r);
        lemma_pow_adds(x, 2, u);
        lemma_pow_adds(x, 1, 1);
        lemma_pow1(x);
        lemma_mul_mod_noop(x, x, r);
        assert((r - 1) * (r - 1) == (r - 2) * r + 1) by (nonlinear_arith);
        lemma_fundamental_div_mod_converse((r - 1) * (r - 1), r, r - 2, 1);
        assert((x * x) % r == 1);
        lemma_mul_mod_noop(x * x, pow(x, u), r);
        assert(1 * (r - 1) == r - 1);
        lemma_small_mod((r - 1) as nat, r as nat);
    }
}

/// A power of something congruent to one is congruent to one.
proof fn lemma_one_power(x: int, t: nat, r: int)
    requires
        r > 1,
        x % r == 1,
    ensures
        pow(x, t) % r == 1,
    decreases t,
{
    lemma_pow0(x);
    if t == 0 {
        lemma_small_mod(1, r as nat);
    } else {
        lemma_one_power(x, (t - 1) as nat, r);
        lemma_pow_adds(x, 1, (t - 1) as nat);
        lemma_pow1(x);
        lemma_mul_mod_noop(x, pow(x, (t - 1) as nat), r);
        lemma_small_mod(1, r as nat);
    }
}

proof fn lemma_pow2_32()
    ensures
        pow(2, 31) == 0x8000_0000,
        pow(2, 32) == 0x1_0000_0000,
{
    lemma_pow1(2);
    lemma_pow_adds(2, 1, 1);
    assert(pow(2, 2) == 2 * 2);
    lemma_pow_adds(2, 2, 2);
    assert(pow(2, 4) == 4 * 4);
    lemma_pow_adds(2, 4, 4);
    assert(pow(2, 8) == 16 * 16);
    lemma_pow_adds(2, 8, 8);
    assert(pow(2, 16) == 256 * 256);
    lemma_pow_adds(2, 16, 8);
    assert(pow(2, 24) == 65536 * 256);
    lemma_pow_adds(2, 24, 4);
    assert(pow(2, 28) == 16777216 * 16);
    lemma_pow_adds(2, 28, 2);
    assert(pow(2, 30) == 268435456 * 4);
    lemma_pow_adds(2, 30, 1);
    assert(pow(2, 31) == 1073741824 * 2);
    lemma_pow_adds(2, 31, 1);
    assert(pow(2, 32) == 2147483648 * 2);
}

/// No power of the root below `2^32` is one, modulo a divisor of the modulus.
proof fn lemma_order(r: int, h: int, d: nat)
    requires
        p() == r * h,
        r > 2,
        0 < d < 0x1_0000_0000,
    ensures
        pow(root(), d) % r != 1,
{
    if pow(root(), d) % r == 1 {
        lemma_pow2_32();
        let (s, t) = lemma_odd_part(d, 32);
        let k = pow(2, (31 - s) as nat);
        vstd::arithmetic::power::lemma_pow_positive(2, (31 - s) as nat);
        lemma_pow_adds(2, s, (31 - s) as nat);
        assert(d * k == 0x8000_0000 * t) by (nonlinear_arith)
            requires
                d == pow(2, s) * t,
                pow(2, s) * k == 0x8000_0000,
        ;
        lemma_pow_multiplies(root(), d, k as nat);
        lemma_one_power(pow(root(), d), k as nat, r);
        lemma_root_half();
        lemma_small_mod((p() - 1) as nat, p() as nat);
        lemma_mod_divisor(pow(root(), 0x8000_0000), p() - 1, r, h);
        lemma_minus_one(r, h);
        lemma_odd_power(pow(root(), 0x8000_0000), t, r);
        lemma_pow_multiplies(root(), 0x8000_0000, t);
    }
}

proof fn lemma_minus_one(r: int, h: int)
    requires
        p() == r * h,
        r > 1,
    ensures
        (p() - 1) % r == r - 1,
{
    assert(p() - 1 == (h - 1) * r + (r - 1)) by (nonlinear_arith)
        requires
            p() == r * h,
    ;
    lemma_fundamental_div_mod_converse(p() - 1, r, h - 1, r - 1);
}

/// `ROOT^(2^32) = 1` modulo a divisor of the modulus.
proof fn lemma_root_full(r: int, h: int)
    requires
        p() == r * h,
        r > 1,
    ensures
        pow(root(), 0x1_0000_0000) % r == 1,
{
    lemma_root_half();
    lemma_small_mod((p() - 1) as nat, p() as nat);
    lemma_mod_divisor(pow(root(), 0x8000_0000), p() - 1, r, h);
    lemma_minus_one(r, h);
    lemma_pow_adds(root(), 0x8000_0000, 0x8000_0000);
    let x = pow(root(), 0x8000_0000);
    lemma_mul_mod_noop(x, x, r);
    assert((r - 1) * (r - 1) == (r - 2) * r + 1) by (nonlinear_arith);
    lemma_fundamental_div_mod_converse((r - 1) * (r - 1), r, r - 2, 1);
}

/// Different exponents give different powers, modulo a divisor of the modulus.
proof fn lemma_powers_differ(r: int, h: int, i: nat, j: nat)
    requires
        p() == r * h,
        r > 2,
        i < j < 0x1_0000_0000,
    ensures
        pow(root(), i) % r != pow(root(), j) % r,
{
    let x = pow(root(), i);
    let y = pow(root(), j);
    if x % r == y % r {
        let up = (0x1_0000_0000 - i) as nat;
        let z = pow(root(), up);
        lemma_pow_adds(root(), i, up);
        lemma_pow_adds(root(), j, up);
        lemma_root_full(r, h);
        let d = (j - i) as nat;
        lemma_pow_adds(root(), 0x1_0000_0000, d);
        let full = pow(root(), 0x1_0000_0000);
        lemma_mul_mod_noop(x, z, r);
        lemma_mul_mod_noop(y, z, r);
        lemma_mul_mod_noop(full, pow(root(), d), r);
        assert(pow(root(), j + up) == full * pow(root(), d));
        let rest = pow(root(), d) % r;
        assert(1 * rest == rest);
        lemma_mod_bound(pow(root(), d), r);
        lemma_small_mod(rest as nat, r as nat);
        lemma_order(r, h, d);
    }
}

proof fn lemma_power_nonzero(r: int, h: int, i: nat)
    requires
        p() == r * h,
        r > 1,
        i < 0x1_0000_0000,
    ensures
        0 < pow(root(), i) % r < r,
{
    lemma_mod_bound(pow(root(), i), r);
    if pow(root(), i) % r == 0 {
        let up = (0x1_0000_0000 - i) as nat;
        lemma_pow_adds(root(), i, up);
        lemma_mul_mod_noop(pow(root(), i), pow(root(), up), r);
        lemma_root_full(r, h);
        let x = pow(root(), i) % r;
        let z = pow(root(), up) % r;
        assert(x * z == 0) by (nonlinear_arith)
            requires
                x == 0,
        ;
        lemma_small_mod(0, r as nat);
    }
}

/// Every divisor of the modulus above two is larger than `2^32`.
proof fn lemma_divisor_large(r: int, h: int)
    requires
        p() == r * h,
        r > 2,
    ensures
        r > 0x1_0000_0000,
{
    let dom = vstd::set_lib::set_int_range(0, 0x1_0000_0000);
    let f = |i: int| pow(root(), i as nat) % r;
    let img = dom.map(f);
    let range = vstd::set_lib::set_int_range(1, r);
    vstd::set_lib::lemma_int_range(0, 0x1_0000_0000);
    vstd::set_lib::lemma_int_range(1, r);
    assert forall|i: int, j: int| dom.contains(i) && dom.contains(j) && i != j implies #[trigger] f(
        i,
    ) != #[trigger] f(j) by {
        if i < j {
            lemma_powers_differ(r, h, i as nat, j as nat);
        } else {
            lemma_powers_differ(r, h, j as nat, i as nat);
        }
    }
    assert(vstd::relations::injective_on(f, dom)) by {
        assert forall|i: int, j: int|
            dom.contains(i) && dom.contains(j) && #[trigger] f(i) == #[trigger] f(j) implies i
            == j by {}
    }
    vstd::set_lib::lemma_map_size(dom, img, f);
    assert(img.subset_of(range)) by {
        assert forall|y: int| img.contains(y) implies range.contains(y) by {
            let i = choose|i: int| dom.contains(i) && y == f(i);
            lemma_power_nonzero(r, h, i as nat);
        }
    }
    vstd::set_lib::lemma_len_subset(img, range);
}

/// The modulus has no divisor between one and itself.
pub proof fn law_modulus_prime(r: int, h: int)
    requires
        GOLDILOCKS_P as int == r * h,
        r > 0,
    ensures
        r == 1 || r == GOLDILOCKS_P,
{
    if r > 1 && r < p() {
        assert(h > 0) by (nonlinear_arith)
            requires
                p() == r * h,
                r > 0,
                p() > 0,
        ;
        assert(h != 1 && h < p()) by (nonlinear_arith)
            requires
                p() == r * h,
                1 < r < p(),
                h > 0,
        ;
        assert(p() % 2 == 1);
        assert(r != 2 && h != 2) by (nonlinear_arith)
            requires
                p() == r * h,
                p() % 2 == 1,
        ;
        lemma_divisor_large(r, h);
        assert(h * r == r * h) by (nonlinear_arith);
        lemma_divisor_large(h, r);
        assert(r * h > 0x1_0000_0000 * 0x1_0000_0000) by (nonlinear_arith)
            requires
                r > 0x1_0000_0000,
                h > 0x1_0000_0000,
        ;
    }
    assert(r <= p()) by (nonlinear_arith)
        requires
            p() == r * h,
            r > 0,
            p() > 0,
    ;
}

/// The least positive multiplier that takes `b` to zero, searched from `from` on.
proof fn lemma_least_annihilator(b: int, from: int) -> (d: int)
    requires
        0 < from <= p(),
        forall|k: int| 0 < k < from ==> residue(#[trigger] (k * b)) != 0,
    ensures
        0 < d <= p(),
        residue(d * b) == 0,
        forall|k: int| 0 < k < d ==> residue(#[trigger] (k * b)) != 0,
    decreases p() - from,
{
    if residue(from * b) == 0 {
        from
    } else {
        assert(from != p()) by {
            if from == p() {
                lemma_mod_multiples_vanish(b, 0, p());
                assert(p() * b + 0 == from * b);
            }
        }
        assert forall|k: int| 0 < k < from + 1 implies residue(#[trigger] (k * b)) != 0 by {
            if k == from {
            }
        }
        lemma_least_annihilator(b, from + 1)
    }
}

/// A multiplier that takes `b` to zero is a multiple of the least one.
proof fn lemma_annihilator_divides(b: int, d: int, a: int)
    requires
        0 < d,
        residue(d * b) == 0,
        forall|k: int| 0 < k < d ==> residue(#[trigger] (k * b)) != 0,
        residue(a * b) == 0,
    ensures
        a % d == 0,
{
    lemma_fundamental_div_mod(a, d);
    lemma_mod_bound(a, d);
    let q = a / d;
    let m = a % d;
    assert(m * b == a * b - q * (d * b)) by (nonlinear_arith)
        requires
            a == d * q + m,
    ;
    lemma_mul_mod_noop(q, d * b, p());
    assert((q % p()) * 0 == 0) by (nonlinear_arith);
    lemma_sub_mod_noop(a * b, q * (d * b), p());
    assert(residue(m * b) == 0);
}

/// A product is zero only where a factor is.
pub proof fn law_no_zero_divisors(a: int, b: int)
    requires
        residue(a * b) == 0,
    ensures
        residue(a) == 0 || residue(b) == 0,
{
    assert forall|k: int| 0 < k < 1 implies residue(#[trigger] (k * b)) != 0 by {}
    let d = lemma_least_annihilator(b, 1);
    lemma_mod_multiples_vanish(b, 0, p());
    assert(p() * b + 0 == p() * b);
    lemma_annihilator_divides(b, d, p());
    lemma_annihilator_divides(b, d, a);
    lemma_fundamental_div_mod(p(), d);
    law_modulus_prime(d, p() / d);
    if d == 1 {
        assert(1 * b == b);
    }
}

} // verus!
