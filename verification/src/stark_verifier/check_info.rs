//! Whether proofs can be checked against a description.
use vstd::arithmetic::power::pow;
use vstd::prelude::*;

use crate::stark_verifier::size::{
    count_fri_vals, fri_at, fri_roots_at, fri_words, info_ok, last_level_words, lemma_fri_vals,
    lemma_fri_words, lemma_opening_nonneg, lemma_sections, lemma_shift, lemma_stage_words, levels,
    opening_words, sibling_levels, sibling_width, size_fits, stage_words, stages_at, tree_levels,
};
use crate::stark_verifier::verdict::verdict_ok;
use crate::stark_verifier::VerifierInfo;

verus! {

/// Whether the description is consistent.
fn check_consistent(info: &VerifierInfo) -> (r: bool)
    ensures
        r == info_ok(*info),
{
    let n: usize = info.fri_steps.len();
    let n_steps: u64 = info.n_fri_steps;
    let widths: usize = info.num_vals.len();
    if info.arity < 2 || info.n_bits_ext >= 64 || (widths as u64) <= info.n_stages as u64 || n_steps
        < 1 || n_steps > n as u64 {
        return false;
    }
    if tree_levels(info.n_bits_ext, info.arity) < info.last_level_verification {
        return false;
    }
    let mut i: usize = 0;
    while (i as u64) < n_steps
        invariant
            i <= n_steps <= n,
            n == info.fri_steps@.len(),
            n_steps == info.n_fri_steps,
            info.arity >= 2,
            forall|k: int| 0 <= k < i ==> (#[trigger] info.fri_steps@[k]) < 64,
            forall|k: int|
                1 <= k < i ==> (#[trigger] info.fri_steps@[k]) <= info.fri_steps@[k - 1]
                    < info.fri_steps@[k] + 62,
            forall|k: int|
                1 <= k < i ==> sibling_levels(*info, #[trigger] info.fri_steps@[k]) >= 0,
        decreases n_steps - i,
    {
        let bits: u64 = info.fri_steps[i];
        if bits >= 64 {
            assert(info.fri_steps@[i as int] >= 64);
            return false;
        }
        if i > 0 {
            let before: u64 = info.fri_steps[i - 1];
            if bits > before || before - bits >= 62 {
                assert(!(info.fri_steps@[i as int] <= info.fri_steps@[i - 1]
                    < info.fri_steps@[i as int] + 62));
                return false;
            }
            if tree_levels(bits, info.arity) < info.last_level_verification {
                assert(sibling_levels(*info, info.fri_steps@[i as int]) < 0);
                return false;
            }
        }
        i = i + 1;
    }
    info.fri_steps[i - 1] < 62
}

/// The words of a published last level, where they can be counted.
fn last_level_or_none(info: &VerifierInfo) -> (r: Option<u64>)
    requires
        info.arity >= 2,
    ensures
        match r {
            Some(w) => w == last_level_words(*info),
            None => last_level_words(*info) > u64::MAX,
        },
{
    let n: u64 = info.last_level_verification;
    if n == 0 {
        return Some(0);
    }
    let arity: u64 = info.arity;
    let mut prod: u64 = 1;
    let mut i: u64 = 0;
    proof {
        vstd::arithmetic::power::lemma_pow0(arity as int);
    }
    while i < n
        invariant
            i <= n,
            arity >= 2,
            prod == pow(arity as int, i as nat),
            n == info.last_level_verification,
            n > 0,
            arity == info.arity,
        decreases n - i,
    {
        proof {
            vstd::arithmetic::power::lemma_pow_adds(arity as int, i as nat, 1);
            vstd::arithmetic::power::lemma_pow1(arity as int);
            vstd::arithmetic::power::lemma_pow_increases(arity as nat, (i + 1) as nat, n as nat);
        }
        prod = match prod.checked_mul(arity) {
            Some(p) => p,
            None => {
                return None;
            },
        };
        i = i + 1;
    }
    prod.checked_mul(4)
}

/// The words of the openings of one tree, where they can be counted.
fn opening_or_none(info: &VerifierInfo, n_vals: u64, bits: u64, last: u64) -> (r: Option<u64>)
    requires
        info.arity >= 2,
        bits < 64,
        sibling_levels(*info, bits) >= 0,
        last == last_level_words(*info),
        sibling_width(*info) <= u64::MAX,
        info.n_fri_queries * sibling_levels(*info, bits) <= u64::MAX,
    ensures
        match r {
            Some(w) => w == opening_words(*info, n_vals as int, bits),
            None => opening_words(*info, n_vals as int, bits) > u64::MAX,
        },
{
    proof {
        lemma_opening_nonneg(*info, n_vals as int, bits);
    }
    let n_siblings: u64 = tree_levels(bits, info.arity) - info.last_level_verification;
    let width: u64 = (info.arity - 1) * 4;
    let siblings: u64 = match (info.n_fri_queries * n_siblings).checked_mul(width) {
        Some(s) => s,
        None => {
            return None;
        },
    };
    let vals: u64 = match info.n_fri_queries.checked_mul(n_vals) {
        Some(v) => v,
        None => {
            return None;
        },
    };
    match vals.checked_add(siblings) {
        Some(s) => s.checked_add(last),
        None => None,
    }
}

/// Whether the openings of a tree over `2^bits` leaves can be counted query by query.
fn queries_fit(info: &VerifierInfo, bits: u64) -> (r: bool)
    requires
        info.arity >= 2,
        bits < 64,
        sibling_levels(*info, bits) >= 0,
    ensures
        r == (info.n_fri_queries * levels(bits as nat, info.arity as int) <= u64::MAX),
        r ==> info.n_fri_queries * sibling_levels(*info, bits) <= u64::MAX,
{
    let m: u64 = tree_levels(bits, info.arity);
    proof {
        let q = info.n_fri_queries as int;
        assert(q * sibling_levels(*info, bits) <= q * m) by (nonlinear_arith)
            requires
                q >= 0,
                sibling_levels(*info, bits) <= m,
        ;
    }
    info.n_fri_queries.checked_mul(m).is_some()
}

/// The words of a proof behind its publics up to its FRI roots, where they can be counted.
fn front_or_none(info: &VerifierInfo, last: u64) -> (r: Option<u64>)
    requires
        info_ok(*info),
        last == last_level_words(*info),
        sibling_width(*info) <= u64::MAX,
        info.n_fri_queries * sibling_levels(*info, info.n_bits_ext) <= u64::MAX,
    ensures
        match r {
            Some(w) => w == fri_roots_at(*info),
            None => fri_roots_at(*info) > u64::MAX,
        },
{
    let n: u64 = info.n_stages as u64 + 1;
    proof {
        lemma_sections(*info);
        lemma_opening_nonneg(*info, info.n_constants as int, info.n_bits_ext);
    }
    let evals: u64 = match info.n_evals.checked_mul(3) {
        Some(e) => e,
        None => {
            return None;
        },
    };
    let head: u64 = match evals.checked_add(4 * n) {
        Some(h) => h,
        None => {
            return None;
        },
    };
    let constants: u64 = match opening_or_none(info, info.n_constants, info.n_bits_ext, last) {
        Some(c) => c,
        None => {
            return None;
        },
    };
    let mut p: u64 = match head.checked_add(constants) {
        Some(p) => p,
        None => {
            return None;
        },
    };
    let widths: usize = info.num_vals.len();
    let mut i: u64 = 0;
    while i < n
        invariant
            i <= n,
            n == info.n_stages + 1,
            widths == info.num_vals@.len(),
            info_ok(*info),
            last == last_level_words(*info),
            sibling_width(*info) <= u64::MAX,
            info.n_fri_queries * sibling_levels(*info, info.n_bits_ext) <= u64::MAX,
            p == stages_at(*info) + stage_words(*info, i as nat),
        decreases n - i,
    {
        proof {
            lemma_sections(*info);
            lemma_stage_words(*info, (i + 1) as nat, n as nat);
            lemma_stage_words(*info, i as nat, n as nat);
        }
        let w: u64 = match opening_or_none(info, info.num_vals[i as usize], info.n_bits_ext, last) {
            Some(w) => w,
            None => {
                return None;
            },
        };
        p = match p.checked_add(w) {
            Some(p) => p,
            None => {
                return None;
            },
        };
        i = i + 1;
    }
    Some(p)
}

/// Whether the size of the proof fits the machine's limits.
fn check_size(info: &VerifierInfo) -> (r: bool)
    requires
        info_ok(*info),
    ensures
        r == size_fits(*info),
{
    let n_steps: u64 = info.n_fri_steps;
    let n: usize = info.fri_steps.len();
    proof {
        lemma_sections(*info);
        lemma_opening_nonneg(*info, info.n_constants as int, info.n_bits_ext);
    }
    if (info.arity - 1).checked_mul(4).is_none() {
        return false;
    }
    if !queries_fit(info, info.n_bits_ext) {
        return false;
    }
    let last: u64 = match last_level_or_none(info) {
        Some(w) => w,
        None => {
            return false;
        },
    };
    let front: u64 = match front_or_none(info, last) {
        Some(w) => w,
        None => {
            return false;
        },
    };
    let mut p: u64 = match (n_steps - 1).checked_mul(4) {
        None => {
            return false;
        },
        Some(roots) => match front.checked_add(roots) {
            Some(p) => p,
            None => {
                return false;
            },
        },
    };
    let mut k: u64 = 1;
    while k < n_steps
        invariant
            1 <= k <= n_steps,
            n_steps == info.n_fri_steps,
            n == info.fri_steps@.len(),
            info_ok(*info),
            last == last_level_words(*info),
            sibling_width(*info) <= u64::MAX,
            p == fri_at(*info) + fri_words(*info, k as nat),
            forall|i: int|
                1 <= i < k ==> info.n_fri_queries * levels(
                    (#[trigger] info.fri_steps@[i]) as nat,
                    info.arity as int,
                ) <= u64::MAX,
        decreases n_steps - k,
    {
        proof {
            lemma_sections(*info);
            lemma_fri_words(*info, (k + 1) as nat, n_steps as nat);
            lemma_fri_words(*info, k as nat, n_steps as nat);
            lemma_fri_vals(*info, k as int);
            assert(info.fri_steps@[k as int] < 64);
            assert(sibling_levels(*info, info.fri_steps@[k as int]) >= 0);
        }
        let bits: u64 = info.fri_steps[k as usize];
        if !queries_fit(info, bits) {
            assert(!(info.n_fri_queries * levels(
                info.fri_steps@[k as int] as nat,
                info.arity as int,
            ) <= u64::MAX));
            return false;
        }
        let vals: u64 = count_fri_vals(info, k);
        let w: u64 = match opening_or_none(info, vals, bits, last) {
            Some(w) => w,
            None => {
                return false;
            },
        };
        p = match p.checked_add(w) {
            Some(p) => p,
            None => {
                return false;
            },
        };
        k = k + 1;
    }
    let fb: u64 = info.fri_steps[(n_steps - 1) as usize];
    proof {
        lemma_sections(*info);
        lemma_shift(fb);
    }
    match p.checked_add(3 * (1u64 << fb) + 1) {
        None => false,
        Some(words) => words <= usize::MAX as u64 / 8,
    }
}

/// Whether proofs can be checked against the description: it is consistent, lets proofs be
/// judged, and describes proofs whose size fits the machine's limits.
pub fn check_verifier_info(info: &VerifierInfo) -> (r: bool)
    ensures
        r == (verdict_ok(*info) && size_fits(*info)),
{
    if !check_consistent(info) {
        return false;
    }
    let n: usize = info.fri_steps.len();
    assert(info.n_fri_steps <= n);
    let last: u64 = info.fri_steps[(info.n_fri_steps - 1) as usize];
    if info.pow_bits < 1 || info.pow_bits > 64 || info.n_bits > info.n_bits_ext || info.n_bits_ext
        - info.n_bits > last {
        return false;
    }
    match info.q_index.checked_add(info.q_deg) {
        None => false,
        Some(end) => end <= info.n_evals && check_size(info),
    }
}

} // verus!
