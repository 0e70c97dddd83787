//! The size of a proof, section by section, in 64-bit words.
use vstd::arithmetic::power::pow;
use vstd::arithmetic::power2::pow2;
use vstd::prelude::*;

use crate::stark_verifier::VerifierInfo;

verus! {

/// `m` is the number of levels of a tree of the given arity over `2^bits` leaves.
pub open spec fn is_levels(bits: nat, arity: int, m: nat) -> bool {
    &&& pow2(bits) <= pow(arity, m)
    &&& m == 0 || pow(arity, (m - 1) as nat) < pow2(bits)
}

/// The number of levels of a tree of the given arity over `2^bits` leaves: the logarithm of the
/// number of leaves to the base of the arity, rounded up.
pub open spec fn levels(bits: nat, arity: int) -> nat {
    choose|m: nat| is_levels(bits, arity, m)
}

pub proof fn lemma_levels_unique(bits: nat, arity: int, m: nat)
    requires
        arity >= 2,
        is_levels(bits, arity, m),
    ensures
        levels(bits, arity) == m,
{
    let n = levels(bits, arity);
    if n < m {
        vstd::arithmetic::power::lemma_pow_increases(arity as nat, n, (m - 1) as nat);
    } else if m < n {
        vstd::arithmetic::power::lemma_pow_increases(arity as nat, m, (n - 1) as nat);
    }
}

/// The number of levels of a tree over `2^bits` leaves.
pub fn tree_levels(bits: u64, arity: u64) -> (m: u64)
    requires
        arity >= 2,
        bits < 64,
    ensures
        m == levels(bits as nat, arity as int),
        m <= bits,
{
    let leaves: u128 = (1u64 << bits) as u128;
    let mut prod: u128 = 1;
    let mut m: u64 = 0;
    proof {
        lemma_shift(bits);
        vstd::arithmetic::power2::lemma2_to64();
        vstd::arithmetic::power2::lemma2_to64_rest();
        if bits < 63 {
            vstd::arithmetic::power2::lemma_pow2_strictly_increases(bits as nat, 63);
        }
        vstd::arithmetic::power::lemma_pow0(arity as int);
        assert(leaves == pow2(bits as nat));
        assert(pow2(0) == 1);
    }
    while prod < leaves
        invariant
            arity >= 2,
            bits < 64,
            leaves == pow2(bits as nat),
            leaves <= 0x8000_0000_0000_0000,
            prod == pow(arity as int, m as nat),
            prod >= pow2(m as nat),
            m <= bits,
            m == 0 || pow(arity as int, (m - 1) as nat) < leaves,
        decreases bits - m,
    {
        proof {
            vstd::arithmetic::power::lemma_pow_adds(arity as int, m as nat, 1);
            vstd::arithmetic::power::lemma_pow1(arity as int);
            assert(prod * arity <= 0x8000_0000_0000_0000 * 0xFFFF_FFFF_FFFF_FFFF)
                by (nonlinear_arith)
                requires
                    0 <= prod <= 0x8000_0000_0000_0000,
                    0 <= arity <= 0xFFFF_FFFF_FFFF_FFFF,
            ;
            assert(prod * arity >= 2 * prod) by (nonlinear_arith)
                requires
                    prod >= 0,
                    arity >= 2,
            ;
            vstd::arithmetic::power2::lemma_pow2_unfold((m + 1) as nat);
            vstd::arithmetic::power2::lemma_pow2_pos(m as nat);
            if m >= bits {
                assert(prod >= leaves);
            }
        }
        prod = prod * (arity as u128);
        m = m + 1;
    }
    proof {
        lemma_levels_unique(bits as nat, arity as int, m as nat);
    }
    m
}

/// Siblings per query: the levels below the published last level.
pub open spec fn sibling_levels(info: VerifierInfo, bits: u64) -> int {
    levels(bits as nat, info.arity as int) - info.last_level_verification
}

/// Words per level of siblings.
pub open spec fn sibling_width(info: VerifierInfo) -> int {
    (info.arity - 1) * 4
}

/// Words of a published last level; none where none is published.
pub open spec fn last_level_words(info: VerifierInfo) -> int {
    if info.last_level_verification > 0 {
        pow(info.arity as int, info.last_level_verification as nat) * 4
    } else {
        0
    }
}

/// Words of the openings of one tree: values and siblings of every query, then the last level.
pub open spec fn opening_words(info: VerifierInfo, n_vals: int, bits: u64) -> int {
    info.n_fri_queries * n_vals + info.n_fri_queries * sibling_levels(info, bits) * sibling_width(
        info,
    ) + last_level_words(info)
}

/// Words of the openings of the first `n` stages.
pub open spec fn stage_words(info: VerifierInfo, n: nat) -> int
    decreases n,
{
    if n == 0 {
        0
    } else {
        stage_words(info, (n - 1) as nat) + opening_words(
            info,
            info.num_vals@[n - 1] as int,
            info.n_bits_ext,
        )
    }
}

/// Words that one query opens at the FRI step `i`.
pub open spec fn fri_vals(info: VerifierInfo, i: int) -> int {
    3 * pow2((info.fri_steps@[i - 1] - info.fri_steps@[i]) as nat) as int
}

/// Words of the openings of the FRI steps `1..n`.
pub open spec fn fri_words(info: VerifierInfo, n: nat) -> int
    decreases n,
{
    if n <= 1 {
        0
    } else {
        fri_words(info, (n - 1) as nat) + opening_words(
            info,
            fri_vals(info, n - 1),
            info.fri_steps@[n - 1],
        )
    }
}

/// The bits of the final polynomial.
pub open spec fn final_bits(info: VerifierInfo) -> u64 {
    info.fri_steps@[info.n_fri_steps - 1]
}

/// Where each section starts, counted from the end of the publics.
pub open spec fn evals_at(info: VerifierInfo) -> int {
    4 * (info.n_stages + 1)
}

pub open spec fn constants_at(info: VerifierInfo) -> int {
    evals_at(info) + 3 * info.n_evals
}

pub open spec fn stages_at(info: VerifierInfo) -> int {
    constants_at(info) + opening_words(info, info.n_constants as int, info.n_bits_ext)
}

pub open spec fn fri_roots_at(info: VerifierInfo) -> int {
    stages_at(info) + stage_words(info, (info.n_stages + 1) as nat)
}

pub open spec fn fri_at(info: VerifierInfo) -> int {
    fri_roots_at(info) + 4 * (info.n_fri_steps - 1)
}

pub open spec fn final_pol_at(info: VerifierInfo) -> int {
    fri_at(info) + fri_words(info, info.n_fri_steps as nat)
}

pub open spec fn nonce_at(info: VerifierInfo) -> int {
    final_pol_at(info) + 3 * pow2(final_bits(info) as nat)
}

/// Words of a proof, without its publics.
pub open spec fn proof_words(info: VerifierInfo) -> int {
    nonce_at(info) + 1
}

/// The description is consistent: every list is long enough, steps do not grow, and no tree has
/// fewer levels than its published last level leaves out.
pub open spec fn info_ok(info: VerifierInfo) -> bool {
    &&& info.arity >= 2
    &&& info.n_bits_ext < 64
    &&& info.num_vals@.len() >= info.n_stages + 1
    &&& 1 <= info.n_fri_steps <= info.fri_steps@.len()
    &&& forall|i: int|
        0 <= i < info.n_fri_steps ==> (#[trigger] info.fri_steps@[i]) < 64
    &&& forall|i: int|
        1 <= i < info.n_fri_steps ==> (#[trigger] info.fri_steps@[i]) <= info.fri_steps@[i - 1]
            < info.fri_steps@[i] + 62
    &&& final_bits(info) < 62
    &&& sibling_levels(info, info.n_bits_ext) >= 0
    &&& forall|i: int|
        1 <= i < info.n_fri_steps ==> sibling_levels(info, #[trigger] info.fri_steps@[i]) >= 0
}

pub proof fn lemma_opening_nonneg(info: VerifierInfo, n_vals: int, bits: u64)
    requires
        info.arity >= 1,
        n_vals >= 0,
        sibling_levels(info, bits) >= 0,
    ensures
        0 <= info.n_fri_queries * n_vals,
        0 <= info.n_fri_queries * sibling_levels(info, bits),
        0 <= info.n_fri_queries * sibling_levels(info, bits) * sibling_width(info),
        0 <= last_level_words(info),
        0 <= opening_words(info, n_vals, bits),
{
    let q = info.n_fri_queries as int;
    let l = sibling_levels(info, bits);
    let w = sibling_width(info);
    assert(0 <= q * n_vals) by (nonlinear_arith)
        requires
            q >= 0,
            n_vals >= 0,
    ;
    assert(0 <= q * l) by (nonlinear_arith)
        requires
            q >= 0,
            l >= 0,
    ;
    assert(0 <= (q * l) * w) by (nonlinear_arith)
        requires
            q * l >= 0,
            w >= 0,
    ;
    vstd::arithmetic::power::lemma_pow_positive(
        info.arity as int,
        info.last_level_verification as nat,
    );
}

pub proof fn lemma_fri_vals(info: VerifierInfo, i: int)
    requires
        info_ok(info),
        1 <= i < info.n_fri_steps,
    ensures
        fri_vals(info, i) >= 3,
        fri_vals(info, i) <= 3 * 0x2000_0000_0000_0000,
        info.fri_steps@[i] <= info.fri_steps@[i - 1] < info.fri_steps@[i] + 62,
        info.fri_steps@[i - 1] < 64,
{
    assert(info.fri_steps@[i] <= info.fri_steps@[i - 1]);
    assert(info.fri_steps@[i - 1] < 64);
    let d = (info.fri_steps@[i - 1] - info.fri_steps@[i]) as nat;
    vstd::arithmetic::power2::lemma_pow2_pos(d);
    vstd::arithmetic::power2::lemma2_to64_rest();
    if d < 61 {
        vstd::arithmetic::power2::lemma_pow2_strictly_increases(d, 61);
    }
}

pub proof fn lemma_stage_words(info: VerifierInfo, i: nat, n: nat)
    requires
        info_ok(info),
        i <= n <= info.n_stages + 1,
    ensures
        0 <= stage_words(info, i) <= stage_words(info, n),
    decreases n,
{
    if i < n {
        lemma_stage_words(info, i, (n - 1) as nat);
        lemma_opening_nonneg(info, info.num_vals@[n - 1] as int, info.n_bits_ext);
    } else if n > 0 {
        lemma_stage_words(info, (n - 1) as nat, (n - 1) as nat);
        lemma_opening_nonneg(info, info.num_vals@[n - 1] as int, info.n_bits_ext);
    }
}

pub proof fn lemma_fri_words(info: VerifierInfo, i: nat, n: nat)
    requires
        info_ok(info),
        i <= n <= info.n_fri_steps,
    ensures
        0 <= fri_words(info, i) <= fri_words(info, n),
    decreases n,
{
    if n > 1 {
        lemma_fri_vals(info, n - 1);
        assert(sibling_levels(info, info.fri_steps@[n - 1]) >= 0);
        lemma_opening_nonneg(info, fri_vals(info, n - 1), info.fri_steps@[n - 1]);
        if i < n {
            lemma_fri_words(info, i, (n - 1) as nat);
        } else {
            lemma_fri_words(info, (n - 1) as nat, (n - 1) as nat);
        }
    }
}

/// The sections follow each other.
pub proof fn lemma_sections(info: VerifierInfo)
    requires
        info_ok(info),
    ensures
        0 <= evals_at(info) <= constants_at(info) <= stages_at(info) <= fri_roots_at(info) <= fri_at(
            info,
        ) <= final_pol_at(info) <= nonce_at(info) < proof_words(info),
{
    lemma_opening_nonneg(info, info.n_constants as int, info.n_bits_ext);
    lemma_stage_words(info, 0, (info.n_stages + 1) as nat);
    lemma_fri_words(info, 0, info.n_fri_steps as nat);
    vstd::arithmetic::power2::lemma_pow2_pos(final_bits(info) as nat);
}

fn arity_power(arity: u64, n: u64) -> (r: u64)
    requires
        arity >= 2,
        pow(arity as int, n as nat) <= u64::MAX,
    ensures
        r == pow(arity as int, n as nat),
{
    let mut r: u64 = 1;
    let mut i: u64 = 0;
    proof {
        vstd::arithmetic::power::lemma_pow0(arity as int);
    }
    while i < n
        invariant
            i <= n,
            arity >= 2,
            r == pow(arity as int, i as nat),
            pow(arity as int, n as nat) <= u64::MAX,
        decreases n - i,
    {
        proof {
            vstd::arithmetic::power::lemma_pow_adds(arity as int, i as nat, 1);
            vstd::arithmetic::power::lemma_pow1(arity as int);
            vstd::arithmetic::power::lemma_pow_increases(
                arity as nat,
                (i + 1) as nat,
                n as nat,
            );
        }
        r = r * arity;
        i = i + 1;
    }
    r
}

/// Words of a published last level.
pub fn count_last_level(info: &VerifierInfo) -> (r: u64)
    requires
        info.arity >= 2,
        last_level_words(*info) <= u64::MAX,
    ensures
        r == last_level_words(*info),
{
    if info.last_level_verification > 0 {
        let n: u64 = arity_power(info.arity, info.last_level_verification);
        n * 4
    } else {
        0
    }
}

/// Words of the openings of one tree.
fn count_opening(info: &VerifierInfo, n_vals: u64, bits: u64, last: u64) -> (r: u64)
    requires
        info.arity >= 2,
        bits < 64,
        sibling_levels(*info, bits) >= 0,
        last == last_level_words(*info),
        opening_words(*info, n_vals as int, bits) <= u64::MAX,
        sibling_width(*info) <= u64::MAX,
        info.n_fri_queries * sibling_levels(*info, bits) <= u64::MAX,
    ensures
        r == opening_words(*info, n_vals as int, bits),
{
    proof {
        lemma_opening_nonneg(*info, n_vals as int, bits);
    }
    let n_siblings: u64 = tree_levels(bits, info.arity) - info.last_level_verification;
    let width: u64 = (info.arity - 1) * 4;
    let vals: u64 = info.n_fri_queries * n_vals;
    let siblings: u64 = info.n_fri_queries * n_siblings * width;
    vals + siblings + last
}

/// The size of the proof fits the machine's limits.
pub open spec fn size_fits(info: VerifierInfo) -> bool {
    &&& info_ok(info)
    &&& 8 * proof_words(info) <= usize::MAX
    &&& sibling_width(info) <= u64::MAX
    &&& info.n_fri_queries * levels(info.n_bits_ext as nat, info.arity as int) <= u64::MAX
    &&& forall|i: int|
        1 <= i < info.n_fri_steps ==> info.n_fri_queries * levels(
            (#[trigger] info.fri_steps@[i]) as nat,
            info.arity as int,
        ) <= u64::MAX
}

proof fn lemma_fewer(q: int, l: int, m: int)
    requires
        q >= 0,
        l <= m,
    ensures
        q * l <= q * m,
{
    assert(q * l <= q * m) by (nonlinear_arith)
        requires
            q >= 0,
            l <= m,
    ;
}

/// The size of a proof in bytes, without its publics.
pub fn expected_proof_size_bytes(info: &VerifierInfo) -> (r: usize)
    requires
        size_fits(*info),
    ensures
        r == 8 * proof_words(*info),
{
    proof {
        lemma_sections(*info);
        lemma_opening_nonneg(*info, info.n_constants as int, info.n_bits_ext);
        lemma_fewer(
            info.n_fri_queries as int,
            sibling_levels(*info, info.n_bits_ext),
            levels(info.n_bits_ext as nat, info.arity as int) as int,
        );
    }
    let last: u64 = count_last_level(info);
    let mut p: u64 = 4 * (info.n_stages as u64 + 1);
    p = p + 3 * info.n_evals;
    p = p + count_opening(info, info.n_constants, info.n_bits_ext, last);
    let n: u64 = info.n_stages as u64 + 1;
    let mut i: u64 = 0;
    while i < n
        invariant
            i <= n,
            n == info.n_stages + 1,
            size_fits(*info),
            last == last_level_words(*info),
            p == stages_at(*info) + stage_words(*info, i as nat),
        decreases n - i,
    {
        proof {
            lemma_sections(*info);
            lemma_stage_words(*info, (i + 1) as nat, n as nat);
            lemma_stage_words(*info, i as nat, n as nat);
            lemma_fewer(
                info.n_fri_queries as int,
                sibling_levels(*info, info.n_bits_ext),
                levels(info.n_bits_ext as nat, info.arity as int) as int,
            );
        }
        p = p + count_opening(info, info.num_vals[i as usize], info.n_bits_ext, last);
        i = i + 1;
    }
    proof {
        lemma_sections(*info);
    }
    p = p + 4 * (info.n_fri_steps - 1);
    let mut k: u64 = 1;
    while k < info.n_fri_steps
        invariant
            1 <= k <= info.n_fri_steps,
            size_fits(*info),
            last == last_level_words(*info),
            p == fri_at(*info) + fri_words(*info, k as nat),
        decreases info.n_fri_steps - k,
    {
        proof {
            lemma_sections(*info);
            lemma_fri_words(*info, (k + 1) as nat, info.n_fri_steps as nat);
            lemma_fri_words(*info, k as nat, info.n_fri_steps as nat);
            lemma_fri_vals(*info, k as int);
            assert(info.n_fri_queries * levels(
                info.fri_steps@[k as int] as nat,
                info.arity as int,
            ) <= u64::MAX);
            assert(sibling_levels(*info, info.fri_steps@[k as int]) >= 0);
            lemma_fewer(
                info.n_fri_queries as int,
                sibling_levels(*info, info.fri_steps@[k as int]),
                levels(info.fri_steps@[k as int] as nat, info.arity as int) as int,
            );
        }
        let vals: u64 = count_fri_vals(info, k);
        p = p + count_opening(info, vals, info.fri_steps[k as usize], last);
        k = k + 1;
    }
    let fb: u64 = info.fri_steps[(info.n_fri_steps - 1) as usize];
    proof {
        lemma_sections(*info);
        lemma_shift(fb);
    }
    p = p + 3 * (1u64 << fb);
    p = p + 1;
    (p as usize) * 8
}

/// A shift of one is a power of two.
pub proof fn lemma_shift(b: u64)
    requires
        b < 64,
    ensures
        (1u64 << b) == pow2(b as nat),
        b < 62 ==> (1u64 << b) <= 0x2000_0000_0000_0000,
{
    vstd::arithmetic::power2::lemma2_to64();
    vstd::arithmetic::power2::lemma2_to64_rest();
    if b < 63 {
        vstd::arithmetic::power2::lemma_pow2_strictly_increases(b as nat, 63);
    }
    if b < 61 {
        vstd::arithmetic::power2::lemma_pow2_strictly_increases(b as nat, 61);
    }
    vstd::bits::lemma_u64_shl_is_mul(1, b);
}

/// Words that one query opens at an FRI step.
pub fn count_fri_vals(info: &VerifierInfo, i: u64) -> (r: u64)
    requires
        info_ok(*info),
        1 <= i < info.n_fri_steps,
    ensures
        r == fri_vals(*info, i as int),
{
    proof {
        lemma_fri_vals(*info, i as int);
        assert(info.fri_steps@[i as int] < 64);
    }
    let n: usize = info.fri_steps.len();
    assert(i < n);
    let d: u64 = info.fri_steps[(i - 1) as usize] - info.fri_steps[i as usize];
    proof {
        lemma_shift(d);
    }
    (1u64 << d) * 3
}

} // verus!
