//! Traces of hash functions: the rows of each invocation, and what they look up.
use vstd::prelude::*;

pub mod blake2b;
pub mod blake3;
pub mod inputs;
pub mod sha2;
pub mod traces;
pub mod word;

verus! {

/// How many invocations of `clocks` rows a trace holds. Where rows are left over, one cycle stays
/// free.
pub open spec fn invocations(num_rows: int, clocks: int) -> int {
    if num_rows % clocks == 0 {
        num_rows / clocks
    } else {
        (num_rows - num_rows % clocks) / clocks - 1
    }
}

/// How many invocations of `clocks` rows a trace holds.
pub fn num_available(num_rows: usize, clocks: usize) -> (r: usize)
    requires
        0 < clocks <= num_rows,
    ensures
        r == invocations(num_rows as int, clocks as int),
{
    let left: usize = num_rows % clocks;
    proof {
        vstd::arithmetic::div_mod::lemma_fundamental_div_mod(num_rows as int, clocks as int);
        vstd::arithmetic::div_mod::lemma_mod_bound(num_rows as int, clocks as int);
        let q = num_rows as int / clocks as int;
        assert(q >= 1) by (nonlinear_arith)
            requires
                num_rows == clocks * q + left,
                num_rows >= clocks,
                0 <= left < clocks,
        ;
        assert(clocks * q == q * clocks) by (nonlinear_arith);
        vstd::arithmetic::div_mod::lemma_fundamental_div_mod_converse(
            num_rows - left,
            clocks as int,
            q,
            0,
        );
    }
    if left == 0 {
        num_rows / clocks
    } else {
        (num_rows - left) / clocks - 1
    }
}

/// The invocations of a trace fit into it.
pub proof fn law_invocations_fit(num_rows: int, clocks: int)
    requires
        0 < clocks <= num_rows,
    ensures
        0 <= invocations(num_rows, clocks),
        invocations(num_rows, clocks) * clocks <= num_rows,
{
    vstd::arithmetic::div_mod::lemma_fundamental_div_mod(num_rows, clocks);
    vstd::arithmetic::div_mod::lemma_mod_bound(num_rows, clocks);
    let q = num_rows / clocks;
    let left = num_rows % clocks;
    assert(q >= 1) by (nonlinear_arith)
        requires
            num_rows == clocks * q + left,
            num_rows >= clocks,
            0 <= left < clocks,
    ;
    assert(clocks * q == q * clocks) by (nonlinear_arith);
    vstd::arithmetic::div_mod::lemma_fundamental_div_mod_converse(num_rows - left, clocks, q, 0);
    assert((q - 1) * clocks == q * clocks - clocks) by (nonlinear_arith);
}

/// How often `t` occurs.
pub open spec fn occurrences(v: Seq<usize>, t: int) -> nat
    decreases v.len(),
{
    if v.len() == 0 {
        0
    } else {
        occurrences(v.drop_last(), t) + (if v.last() == t {
            1nat
        } else {
            0nat
        })
    }
}

proof fn lemma_occurrences(v: Seq<usize>, t: int)
    ensures
        occurrences(v, t) <= v.len(),
    decreases v.len(),
{
    if v.len() > 0 {
        lemma_occurrences(v.drop_last(), t);
    }
}

/// Every lookup names a row of the table.
pub open spec fn lookups_ok(v: Seq<usize>, size: nat) -> bool {
    forall|i: int| 0 <= i < v.len() ==> (#[trigger] v[i]) < size
}

/// Counts that can still grow by `n`.
pub open spec fn counts_fit(counts: Seq<u64>, n: nat) -> bool {
    forall|t: int| 0 <= t < counts.len() ==> (#[trigger] counts[t]) + n <= u64::MAX
}

/// Count lookups that are each made so many times.
pub fn add_lookups(counts: &mut Vec<u64>, lookups: &Vec<usize>, times: u64)
    requires
        lookups_ok(lookups@, old(counts)@.len()),
        counts_fit(old(counts)@, times as nat * lookups@.len()),
    ensures
        final(counts)@.len() == old(counts)@.len(),
        forall|t: int|
            0 <= t < final(counts)@.len() ==> #[trigger] final(counts)@[t] == old(counts)@[t]
                + times * occurrences(lookups@, t),
{
    let ghost before = counts@;
    let mut i: usize = 0;
    proof {
        assert(lookups@.take(0) =~= Seq::empty());
        assert forall|t: int| times * #[trigger] occurrences(lookups@.take(0), t) == 0 by {
            assert(occurrences(lookups@.take(0), t) == 0);
        }
    }
    while i < lookups.len()
        invariant
            i <= lookups@.len(),
            before == old(counts)@,
            counts@.len() == before.len(),
            lookups_ok(lookups@, before.len()),
            counts_fit(before, times as nat * lookups@.len()),
            forall|t: int|
                0 <= t < counts@.len() ==> #[trigger] counts@[t] == before[t] + times * occurrences(
                    lookups@.take(i as int),
                    t,
                ),
        decreases lookups@.len() - i,
    {
        let k: usize = lookups[i];
        proof {
            let seen = lookups@.take(i as int);
            assert(lookups@.take(i + 1).drop_last() =~= seen);
            assert(lookups@.take(i + 1).last() == k);
            lemma_occurrences(seen, k as int);
            assert(before[k as int] + times as nat * lookups@.len() <= u64::MAX);
            let n = occurrences(seen, k as int);
            assert(times * (n + 1) == times * n + times) by (nonlinear_arith);
            assert(times * (n + 1) <= times * lookups@.len()) by (nonlinear_arith)
                requires
                    n + 1 <= lookups@.len(),
                    times >= 0,
            ;
        }
        let next: u64 = counts[k] + times;
        counts[k] = next;
        i = i + 1;
    }
    assert(lookups@.take(i as int) =~= lookups@);
}

/// How often the rows of a trace look up `t`, given what each looks up.
pub open spec fn total(rows: Seq<Seq<usize>>, t: int) -> nat
    decreases rows.len(),
{
    if rows.len() == 0 {
        0
    } else {
        total(rows.drop_last(), t) + occurrences(rows.last(), t)
    }
}

/// Every row makes `m` lookups.
pub open spec fn each_makes(rows: Seq<Seq<usize>>, m: nat) -> bool {
    forall|j: int| 0 <= j < rows.len() ==> (#[trigger] rows[j]).len() == m
}

pub(crate) proof fn lemma_total_bound(rows: Seq<Seq<usize>>, m: nat, t: int)
    requires
        each_makes(rows, m),
    ensures
        total(rows, t) <= m * rows.len(),
    decreases rows.len(),
{
    if rows.len() > 0 {
        lemma_total_bound(rows.drop_last(), m, t);
        lemma_occurrences(rows.last(), t);
        assert(m * (rows.len() - 1) + m == m * rows.len()) by (nonlinear_arith);
    }
}

pub(crate) proof fn lemma_total_repeated(rows: Seq<Seq<usize>>, last: Seq<usize>, n: nat, t: int)
    ensures
        total(rows + Seq::new(n, |j: int| last), t) == total(rows, t) + n * occurrences(last, t),
    decreases n,
{
    let all = rows + Seq::new(n, |j: int| last);
    if n == 0 {
        assert(all =~= rows);
        assert(n * occurrences(last, t) == 0) by (nonlinear_arith)
            requires
                n == 0,
        ;
    } else {
        let less = rows + Seq::new((n - 1) as nat, |j: int| last);
        assert(all.drop_last() =~= less);
        assert(all.last() == last);
        lemma_total_repeated(rows, last, (n - 1) as nat, t);
        let o = occurrences(last, t);
        assert((n - 1) * o + o == n * o) by (nonlinear_arith);
    }
}

} // verus!
