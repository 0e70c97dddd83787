//! The trace of SHA2-256's compression function: the state is loaded, one step is made in each
//! row, and the sum is written.
use vstd::prelude::*;

use crate::hashes::lookups_ok;
use crate::hashes::word::{rotated, rotr};

verus! {

/// Rows that load the state.
pub const CLOCKS_LOAD_STATE: usize = 4;

/// Steps that take their word from the input.
pub const CLOCKS_LOAD_INPUT: usize = 16;

/// Steps of an invocation.
pub const NUM_STEPS: usize = 64;

/// Rows of an invocation.
pub const CLOCKS: usize = 72;

/// Rows of the range table.
pub const RANGE_SIZE: usize = 256;

/// The message schedule's first function.
pub open spec fn sigma0(w: u32) -> u32 {
    rotated(w, 7) ^ rotated(w, 18) ^ (w >> 3)
}

/// The message schedule's first function.
pub fn small_sigma0(w: u32) -> (r: u32)
    ensures
        r == sigma0(w),
{
    rotr(w, 7) ^ rotr(w, 18) ^ (w >> 3)
}

/// The message schedule's second function.
pub open spec fn sigma1(w: u32) -> u32 {
    rotated(w, 17) ^ rotated(w, 19) ^ (w >> 10)
}

/// The message schedule's second function.
pub fn small_sigma1(w: u32) -> (r: u32)
    ensures
        r == sigma1(w),
{
    rotr(w, 17) ^ rotr(w, 19) ^ (w >> 10)
}

/// The mixing's first function.
pub open spec fn upper0(a: u32) -> u32 {
    rotated(a, 2) ^ rotated(a, 13) ^ rotated(a, 22)
}

/// The mixing's first function.
pub fn big_sigma0(a: u32) -> (r: u32)
    ensures
        r == upper0(a),
{
    rotr(a, 2) ^ rotr(a, 13) ^ rotr(a, 22)
}

/// The mixing's second function.
pub open spec fn upper1(e: u32) -> u32 {
    rotated(e, 6) ^ rotated(e, 11) ^ rotated(e, 25)
}

/// The mixing's second function.
pub fn big_sigma1(e: u32) -> (r: u32)
    ensures
        r == upper1(e),
{
    rotr(e, 6) ^ rotr(e, 11) ^ rotr(e, 25)
}

/// The choice between two words, bit by bit.
pub open spec fn choice(e: u32, f: u32, g: u32) -> u32 {
    (e & f) ^ (!e & g)
}

/// The choice between two words, bit by bit.
pub fn ch(e: u32, f: u32, g: u32) -> (r: u32)
    ensures
        r == choice(e, f, g),
{
    (e & f) ^ (!e & g)
}

/// The majority of three words, bit by bit.
pub open spec fn majority(a: u32, b: u32, c: u32) -> u32 {
    (a & b) ^ (a & c) ^ (b & c)
}

/// The majority of three words, bit by bit.
pub fn maj(a: u32, b: u32, c: u32) -> (r: u32)
    ensures
        r == majority(a, b, c),
{
    (a & b) ^ (a & c) ^ (b & c)
}

/// The low word of a sum.
pub open spec fn low(n: int) -> u32 {
    (n % 0x1_0000_0000) as u32
}

/// What a sum carries out of a word.
pub open spec fn carry(n: int) -> u8 {
    (n / 0x1_0000_0000) as u8
}

/// The word of step `i` before it is reduced, from the words before it.
pub open spec fn extension(w: Seq<u32>, i: int) -> int {
    w[i - 16] + sigma0(w[i - 15]) + w[i - 7] + sigma1(w[i - 2])
}

/// The first `n` words of the schedule.
pub open spec fn schedule(input: Seq<u32>, n: nat) -> Seq<u32>
    decreases n,
{
    if n <= 16 {
        input.take(n as int)
    } else {
        let before = schedule(input, (n - 1) as nat);
        before.push(low(extension(before, n - 1)))
    }
}

/// The first sum of a step.
pub open spec fn first_sum(s: Seq<u32>, rc: u32, w: u32) -> int {
    s[7] + upper1(s[4]) + choice(s[4], s[5], s[6]) + rc + w
}

/// The second sum of a step.
pub open spec fn second_sum(s: Seq<u32>) -> int {
    upper0(s[0]) + majority(s[0], s[1], s[2])
}

/// The state after a step.
pub open spec fn step(s: Seq<u32>, rc: u32, w: u32) -> Seq<u32> {
    seq![
        low(first_sum(s, rc, w) + second_sum(s)),
        s[0],
        s[1],
        s[2],
        low(s[3] + first_sum(s, rc, w)),
        s[4],
        s[5],
        s[6],
    ]
}

/// The state before step `n`.
pub open spec fn state_before(s: Seq<u32>, input: Seq<u32>, rc: Seq<u32>, n: nat) -> Seq<u32>
    decreases n,
{
    if n == 0 {
        s
    } else {
        step(
            state_before(s, input, rc, (n - 1) as nat),
            rc[n - 1],
            schedule(input, n)[n - 1],
        )
    }
}

/// One row: two words of the state, the word of a step, and what the sums carry.
#[derive(Clone, Copy, PartialEq, Eq, Structural, Debug)]
pub struct Sha2Row {
    pub s0: u32,
    pub s1: u32,
    pub w: u32,
    pub s0_carry: u8,
    pub s1_carry: u8,
    pub w_carry: u8,
}

/// A row of an invocation: the state from its end, the steps, and the sums with the state from
/// its end.
pub open spec fn row_at(s: Seq<u32>, input: Seq<u32>, rc: Seq<u32>, k: int) -> Sha2Row {
    if k < 4 {
        Sha2Row { s0: s[3 - k], s1: s[7 - k], w: 0, s0_carry: 0, s1_carry: 0, w_carry: 0 }
    } else if k < 68 {
        let i = k - 4;
        let before = state_before(s, input, rc, i as nat);
        let w = schedule(input, (i + 1) as nat)[i];
        let t1 = first_sum(before, rc[i], w);
        Sha2Row {
            s0: low(t1 + second_sum(before)),
            s1: low(before[3] + t1),
            w,
            s0_carry: carry(t1 + second_sum(before)),
            s1_carry: carry(before[3] + t1),
            w_carry: if i < 16 {
                0
            } else {
                carry(extension(schedule(input, i as nat), i))
            },
        }
    } else {
        let i = k - 68;
        let out = state_before(s, input, rc, 64);
        Sha2Row {
            s0: low(s[3 - i] + out[3 - i]),
            s1: low(s[7 - i] + out[7 - i]),
            w: 0,
            s0_carry: carry(s[3 - i] + out[3 - i]),
            s1_carry: carry(s[7 - i] + out[7 - i]),
            w_carry: 0,
        }
    }
}

/// The rows of an invocation, and the state that it gives.
pub fn process_trace(state: &[u32; 8], input: &[u32; 16], rc: &[u32; 64]) -> (r: (
    Vec<Sha2Row>,
    [u32; 8],
))
    ensures
        r.0@.len() == CLOCKS,
        forall|k: int|
            0 <= k < CLOCKS ==> #[trigger] r.0@[k] == row_at(state@, input@, rc@, k),
        forall|k: int|
            0 <= k < 8 ==> #[trigger] r.1[k] == low(
                state[k] + state_before(state@, input@, rc@, 64)[k],
            ),
{
    let mut rows: Vec<Sha2Row> = Vec::new();
    let mut i: usize = 0;
    while i < 4
        invariant
            i <= 4,
            rows@.len() == i,
            forall|k: int|
                0 <= k < i ==> #[trigger] rows@[k] == row_at(state@, input@, rc@, k),
        decreases 4 - i,
    {
        rows.push(
            Sha2Row {
                s0: state[3 - i],
                s1: state[7 - i],
                w: 0,
                s0_carry: 0,
                s1_carry: 0,
                w_carry: 0,
            },
        );
        i = i + 1;
    }
    let mut v: [u32; 8] = *state;
    let mut w: Vec<u32> = Vec::new();
    let mut n: usize = 0;
    assert(w@ =~= schedule(input@, 0));
    while n < 64
        invariant
            n <= 64,
            w@ == schedule(input@, n as nat),
            w@.len() == n,
            v@ == state_before(state@, input@, rc@, n as nat),
            rows@.len() == 4 + n,
            forall|k: int|
                0 <= k < 4 + n ==> #[trigger] rows@[k] == row_at(state@, input@, rc@, k),
        decreases 64 - n,
    {
        let ghost before = v@;
        let ghost words = w@;
        let mut w_carry: u8 = 0;
        if n < 16 {
            w.push(input[n]);
            assert(w@ =~= schedule(input@, (n + 1) as nat));
        } else {
            let full: u64 = w[n - 16] as u64 + small_sigma0(w[n - 15]) as u64 + w[n - 7] as u64
                + small_sigma1(w[n - 2]) as u64;
            assert(full == extension(words, n as int));
            w.push((full % 0x1_0000_0000) as u32);
            w_carry = (full / 0x1_0000_0000) as u8;
            assert(w@ =~= schedule(input@, (n + 1) as nat));
        }
        let word: u32 = w[n];
        let t1: u64 = v[7] as u64 + big_sigma1(v[4]) as u64 + ch(v[4], v[5], v[6]) as u64
            + rc[n] as u64 + word as u64;
        let t2: u64 = big_sigma0(v[0]) as u64 + maj(v[0], v[1], v[2]) as u64;
        let new_a: u64 = t1 + t2;
        let new_e: u64 = v[3] as u64 + t1;
        proof {
            assert(t1 == first_sum(before, rc@[n as int], word));
            assert(t2 == second_sum(before));
        }
        let row: Sha2Row = Sha2Row {
            s0: (new_a % 0x1_0000_0000) as u32,
            s1: (new_e % 0x1_0000_0000) as u32,
            w: word,
            s0_carry: (new_a / 0x1_0000_0000) as u8,
            s1_carry: (new_e / 0x1_0000_0000) as u8,
            w_carry,
        };
        assert(row == row_at(state@, input@, rc@, 4 + n));
        rows.push(row);
        v = [row.s0, v[0], v[1], v[2], row.s1, v[4], v[5], v[6]];
        assert(v@ =~= step(before, rc@[n as int], word));
        n = n + 1;
    }
    let mut m: usize = 0;
    while m < 4
        invariant
            m <= 4,
            v@ == state_before(state@, input@, rc@, 64),
            rows@.len() == 68 + m,
            forall|k: int|
                0 <= k < 68 + m ==> #[trigger] rows@[k] == row_at(state@, input@, rc@, k),
        decreases 4 - m,
    {
        let s0: u64 = state[3 - m] as u64 + v[3 - m] as u64;
        let s1: u64 = state[7 - m] as u64 + v[7 - m] as u64;
        let row: Sha2Row = Sha2Row {
            s0: (s0 % 0x1_0000_0000) as u32,
            s1: (s1 % 0x1_0000_0000) as u32,
            w: 0,
            s0_carry: (s0 / 0x1_0000_0000) as u8,
            s1_carry: (s1 / 0x1_0000_0000) as u8,
            w_carry: 0,
        };
        assert(row == row_at(state@, input@, rc@, 68 + m));
        rows.push(row);
        m = m + 1;
    }
    let out: [u32; 8] = [
        rows[71].s0,
        rows[70].s0,
        rows[69].s0,
        rows[68].s0,
        rows[71].s1,
        rows[70].s1,
        rows[69].s1,
        rows[68].s1,
    ];
    proof {
        assert(rows@[71] == row_at(state@, input@, rc@, 71));
        assert(rows@[70] == row_at(state@, input@, rc@, 70));
        assert(rows@[69] == row_at(state@, input@, rc@, 69));
        assert(rows@[68] == row_at(state@, input@, rc@, 68));
    }
    (rows, out)
}

/// The row of the range table for three carries.
pub open spec fn carries_index(s0: u8, s1: u8, w: u8) -> int {
    s0 + 8 * s1 + 64 * w
}

/// The row of the range table for three carries.
pub fn range_row(s0_carry: u8, s1_carry: u8, w_carry: u8) -> (r: usize)
    requires
        s0_carry < 8,
        s1_carry < 8,
        w_carry < 4,
    ensures
        r == carries_index(s0_carry, s1_carry, w_carry),
        r < RANGE_SIZE,
{
    s0_carry as usize + 8 * (s1_carry as usize) + 64 * (w_carry as usize)
}

/// The carries of every row fit the range table.
pub proof fn law_carries_fit(s: Seq<u32>, input: Seq<u32>, rc: Seq<u32>, k: int)
    requires
        s.len() == 8,
        input.len() == 16,
        rc.len() == 64,
        0 <= k < CLOCKS,
    ensures
        row_at(s, input, rc, k).s0_carry < 8,
        row_at(s, input, rc, k).s1_carry < 8,
        row_at(s, input, rc, k).w_carry < 4,
{
}

/// What the rows of an invocation look up, in order.
pub open spec fn invocation_lookups(s: Seq<u32>, input: Seq<u32>, rc: Seq<u32>) -> Seq<int> {
    Seq::new(
        CLOCKS as nat,
        |k: int|
            {
                let r = row_at(s, input, rc, k);
                carries_index(r.s0_carry, r.s1_carry, r.w_carry)
            },
    )
}

/// What the rows of an invocation look up, in order.
pub fn lookups(state: &[u32; 8], input: &[u32; 16], rc: &[u32; 64], rows: &Vec<Sha2Row>) -> (v: Vec<
    usize,
>)
    requires
        rows@.len() == CLOCKS,
        forall|k: int|
            0 <= k < CLOCKS ==> #[trigger] rows@[k] == row_at(state@, input@, rc@, k),
    ensures
        v@.map_values(|i: usize| i as int) == invocation_lookups(state@, input@, rc@),
        lookups_ok(v@, RANGE_SIZE as nat),
{
    let ghost all = invocation_lookups(state@, input@, rc@);
    let mut out: Vec<usize> = Vec::new();
    let mut k: usize = 0;
    assert(out@.map_values(|i: usize| i as int) =~= all.take(0));
    while k < 72
        invariant
            k <= 72,
            rows@.len() == 72,
            forall|j: int|
                0 <= j < 72 ==> #[trigger] rows@[j] == row_at(state@, input@, rc@, j),
            all == invocation_lookups(state@, input@, rc@),
            out@.map_values(|i: usize| i as int) == all.take(k as int),
            lookups_ok(out@, RANGE_SIZE as nat),
        decreases 72 - k,
    {
        let r: Sha2Row = rows[k];
        proof {
            law_carries_fit(state@, input@, rc@, k as int);
        }
        let ghost before = out@;
        let i: usize = range_row(r.s0_carry, r.s1_carry, r.w_carry);
        out.push(i);
        proof {
            assert(all[k as int] == i);
            assert(all.take(k + 1) =~= all.take(k as int).push(i as int));
            assert(out@.map_values(|i: usize| i as int) =~= before.map_values(
                |i: usize| i as int,
            ).push(i as int));
        }
        k = k + 1;
    }
    assert(all.take(72) =~= all);
    out
}

} // verus!
