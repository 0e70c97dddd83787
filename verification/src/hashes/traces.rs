//! Whole traces: every invocation, and how often each table row is looked up.
use vstd::prelude::*;

use crate::hashes::blake3::{
    self, lookup_ints, range_lookups, row_range_lookups, row_table_lookups, second_word,
    table_lookups, Blake3Row,
};
use crate::hashes::sha2::{self, invocation_lookups, Sha2Row};
use crate::hashes::word::bytes;
use crate::hashes::{
    add_lookups, counts_fit, each_makes, invocations, law_invocations_fit, lemma_total_bound,
    lemma_total_repeated, num_available, total,
};

verus! {

/// A row of BLAKE3 that is left over.
pub open spec fn zero_row() -> Blake3Row {
    Blake3Row {
        va: [0, 0],
        vb: [0, 0, 0, 0],
        vc: [0, 0],
        vd: [0, 0, 0, 0],
        x: [0, 0],
        y: [0, 0],
        va_prime: [0, 0, 0, 0],
        vd_prime: [0, 0, 0, 0],
        vc_prime: [0, 0, 0, 0],
        va_prime_prime: [0, 0, 0, 0],
        vd_prime_prime: [0, 0, 0, 0],
        vc_prime_prime: [0, 0, 0, 0],
        vb_prime_s: [[0, 0], [0, 0], [0, 0], [0, 0]],
        vb_prime_prime_s: [0, 0, 0, 0],
    }
}

fn make_zero_row() -> (r: Blake3Row)
    ensures
        r == zero_row(),
{
    Blake3Row {
        va: [0, 0],
        vb: [0, 0, 0, 0],
        vc: [0, 0],
        vd: [0, 0, 0, 0],
        x: [0, 0],
        y: [0, 0],
        va_prime: [0, 0, 0, 0],
        vd_prime: [0, 0, 0, 0],
        vc_prime: [0, 0, 0, 0],
        va_prime_prime: [0, 0, 0, 0],
        vd_prime_prime: [0, 0, 0, 0],
        vc_prime_prime: [0, 0, 0, 0],
        vb_prime_s: [[0, 0], [0, 0], [0, 0], [0, 0]],
        vb_prime_prime_s: [0, 0, 0, 0],
    }
}

/// The `j`-th row of a trace of BLAKE3: the invocations one after the other, then rows of zeros.
pub open spec fn blake3_row(inputs: Seq<([u32; 16], [u32; 16])>, j: int) -> Blake3Row {
    if j < blake3::CLOCKS * inputs.len() {
        let (state, message) = inputs[j / blake3::CLOCKS as int];
        blake3::row_at(state@, message@, j % blake3::CLOCKS as int)
    } else {
        zero_row()
    }
}

/// The first `n` rows of a trace of BLAKE3.
pub open spec fn blake3_rows(inputs: Seq<([u32; 16], [u32; 16])>, n: nat) -> Seq<Blake3Row> {
    Seq::new(n, |j: int| blake3_row(inputs, j))
}

/// What a row looks up in the table of rotated exclusive-ors.
pub open spec fn in_table(r: Blake3Row) -> Seq<usize> {
    table_lookups(r, bytes(second_word(r))).map_values(|i: int| i as usize)
}

/// What a row looks up in the range table.
pub open spec fn in_range(r: Blake3Row) -> Seq<usize> {
    range_lookups(r).map_values(|i: int| i as usize)
}

/// What each row looks up in the table of rotated exclusive-ors.
pub open spec fn all_in_table(rows: Seq<Blake3Row>) -> Seq<Seq<usize>> {
    Seq::new(rows.len(), |j: int| in_table(rows[j]))
}

/// What each row looks up in the range table.
pub open spec fn all_in_range(rows: Seq<Blake3Row>) -> Seq<Seq<usize>> {
    Seq::new(rows.len(), |j: int| in_range(rows[j]))
}

/// A trace of BLAKE3.
pub struct Blake3Trace {
    pub rows: Vec<Blake3Row>,
    pub table_counts: Vec<u64>,
    pub range_counts: Vec<u64>,
}

/// The counts are those of the rows.
pub open spec fn counted(table: Seq<u64>, range: Seq<u64>, rows: Seq<Blake3Row>) -> bool {
    &&& table.len() == blake3::TABLE_SIZE
    &&& range.len() == blake3::RANGE_SIZE
    &&& forall|t: int|
        0 <= t < blake3::TABLE_SIZE ==> #[trigger] table[t] == total(all_in_table(rows), t)
    &&& forall|t: int|
        0 <= t < blake3::RANGE_SIZE ==> #[trigger] range[t] == total(all_in_range(rows), t)
}

proof fn lemma_indices(v: Seq<usize>, w: Seq<int>)
    requires
        lookup_ints(v) == w,
    ensures
        w.map_values(|i: int| i as usize) == v,
{
    assert(w.len() == v.len());
    assert forall|k: int| 0 <= k < v.len() implies w.map_values(|i: int| i as usize)[k] == v[k] by {
        assert(lookup_ints(v)[k] == v[k]);
    }
    assert(w.map_values(|i: int| i as usize) =~= v);
}

proof fn lemma_counts_fit(counts: Seq<u64>, rows: Seq<Seq<usize>>, m: nat, n: nat)
    requires
        each_makes(rows, m),
        forall|t: int| 0 <= t < counts.len() ==> #[trigger] counts[t] == total(rows, t),
        m * rows.len() + n <= u64::MAX,
    ensures
        counts_fit(counts, n),
{
    assert forall|t: int| 0 <= t < counts.len() implies (#[trigger] counts[t]) + n <= u64::MAX by {
        lemma_total_bound(rows, m, t);
    }
}

/// Count what a row looks up, so many times.
fn count_row(
    table: &mut Vec<u64>,
    range: &mut Vec<u64>,
    row: &Blake3Row,
    times: u64,
    Ghost(rows): Ghost<Seq<Blake3Row>>,
)
    requires
        counted(old(table)@, old(range)@, rows),
        16 * (rows.len() + times) <= u64::MAX,
    ensures
        counted(
            final(table)@,
            final(range)@,
            rows + Seq::new(times as nat, |j: int| *row),
        ),
{
    let in_t: Vec<usize> = row_table_lookups(row);
    let in_r: Vec<usize> = row_range_lookups(row);
    let ghost tables = all_in_table(rows);
    let ghost ranges = all_in_range(rows);
    let ghost after = rows + Seq::new(times as nat, |j: int| *row);
    proof {
        lemma_indices(in_t@, table_lookups(*row, bytes(second_word(*row))));
        lemma_indices(in_r@, range_lookups(*row));
        assert(in_t@ == in_table(*row));
        assert(in_r@ == in_range(*row));
        assert(in_t@.len() == 16);
        assert(in_r@.len() == 8);
        lemma_counts_fit(table@, tables, 16, times as nat * 16);
        lemma_counts_fit(range@, ranges, 8, times as nat * 8);
    }
    add_lookups(table, &in_t, times);
    add_lookups(range, &in_r, times);
    proof {
        assert(all_in_table(after) =~= tables + Seq::new(times as nat, |j: int| in_t@));
        assert(all_in_range(after) =~= ranges + Seq::new(times as nat, |j: int| in_r@));
        assert forall|t: int| 0 <= t < blake3::TABLE_SIZE implies #[trigger] table@[t] == total(
            all_in_table(after),
            t,
        ) by {
            lemma_total_repeated(tables, in_t@, times as nat, t);
        }
        assert forall|t: int| 0 <= t < blake3::RANGE_SIZE implies #[trigger] range@[t] == total(
            all_in_range(after),
            t,
        ) by {
            lemma_total_repeated(ranges, in_r@, times as nat, t);
        }
    }
}

fn zeros(n: usize) -> (r: Vec<u64>)
    ensures
        r@ == Seq::new(n as nat, |i: int| 0u64),
{
    let mut r: Vec<u64> = Vec::new();
    let mut i: usize = 0;
    while i < n
        invariant
            i <= n,
            r@ == Seq::new(i as nat, |i: int| 0u64),
        decreases n - i,
    {
        r.push(0);
        i = i + 1;
        assert(r@ =~= Seq::new(i as nat, |i: int| 0u64));
    }
    r
}

/// Fill a trace of BLAKE3 with invocations; the rows left over are zero.
pub fn fill_blake3(num_rows: usize, inputs: &Vec<([u32; 16], [u32; 16])>) -> (r: Blake3Trace)
    requires
        blake3::CLOCKS * inputs@.len() <= num_rows,
        16 * num_rows <= u64::MAX,
    ensures
        r.rows@ == blake3_rows(inputs@, num_rows as nat),
        counted(r.table_counts@, r.range_counts@, r.rows@),
{
    let mut rows: Vec<Blake3Row> = Vec::new();
    let mut table: Vec<u64> = zeros(blake3::TABLE_SIZE);
    let mut range: Vec<u64> = zeros(blake3::RANGE_SIZE);
    let mut k: usize = 0;
    assert(rows@ =~= blake3_rows(inputs@, 0));
    while k < inputs.len()
        invariant
            k <= inputs@.len(),
            blake3::CLOCKS * inputs@.len() <= num_rows,
            16 * num_rows <= u64::MAX,
            rows@ == blake3_rows(inputs@, (blake3::CLOCKS * k) as nat),
            counted(table@, range@, rows@),
        decreases inputs@.len() - k,
    {
        let (mut part, _out) = blake3::process_trace(&inputs[k].0, &inputs[k].1);
        let mut i: usize = 0;
        let ghost first = rows@;
        assert(first + part@.take(0) =~= first);
        while i < part.len()
            invariant
                i <= part@.len(),
                part@.len() == blake3::CLOCKS,
                k < inputs@.len(),
                first.len() == blake3::CLOCKS * k,
                blake3::CLOCKS * inputs@.len() <= num_rows,
                16 * num_rows <= u64::MAX,
                counted(table@, range@, first + part@.take(i as int)),
            decreases part@.len() - i,
        {
            let ghost so_far = first + part@.take(i as int);
            count_row(&mut table, &mut range, &part[i], 1, Ghost(so_far));
            proof {
                assert(so_far + Seq::new(1, |j: int| part@[i as int]) =~= first + part@.take(
                    i + 1,
                ));
            }
            i = i + 1;
        }
        assert(part@.take(i as int) =~= part@);
        let ghost taken = part@;
        rows.append(&mut part);
        proof {
            assert(rows@ == first + taken);
            assert forall|j: int| 0 <= j < 56 * (k + 1) implies #[trigger] rows@[j] == blake3_row(
                inputs@,
                j,
            ) by {
                if j < 56 * k {
                    assert(first[j] == blake3_row(inputs@, j));
                } else {
                    assert(j / 56 == k && j % 56 == j - 56 * k);
                    assert(taken[j - 56 * k] == blake3::row_at(
                        inputs@[k as int].0@,
                        inputs@[k as int].1@,
                        j - 56 * k,
                    ));
                }
            }
            assert(rows@ =~= blake3_rows(inputs@, (blake3::CLOCKS * (k + 1)) as nat));
        }
        k = k + 1;
    }
    let left: usize = num_rows - rows.len();
    let zero: Blake3Row = make_zero_row();
    count_row(&mut table, &mut range, &zero, left as u64, Ghost(rows@));
    let ghost all = rows@ + Seq::new(left as nat, |j: int| zero_row());
    assert(all =~= blake3_rows(inputs@, num_rows as nat));
    while rows.len() < num_rows
        invariant
            rows@.len() <= num_rows,
            all.len() == num_rows,
            rows@ == all.take(rows@.len() as int),
            forall|j: int| rows@.len() <= j < num_rows ==> #[trigger] all[j] == zero_row(),
        decreases num_rows - rows@.len(),
    {
        let ghost before = rows@;
        rows.push(make_zero_row());
        assert(rows@ =~= all.take(rows@.len() as int));
    }
    assert(rows@ =~= all);
    Blake3Trace { rows, table_counts: table, range_counts: range }
}

/// The input of the `k`-th cycle of a trace of SHA2-256: zeros where none is given.
pub open spec fn sha2_input(inputs: Seq<([u32; 8], [u32; 16])>, k: int) -> (Seq<u32>, Seq<u32>) {
    if k < inputs.len() {
        (inputs[k].0@, inputs[k].1@)
    } else {
        (Seq::new(8, |i: int| 0u32), Seq::new(16, |i: int| 0u32))
    }
}

/// The first `n` rows of a trace of SHA2-256: every cycle is an invocation.
pub open spec fn sha2_rows(inputs: Seq<([u32; 8], [u32; 16])>, rc: Seq<u32>, n: nat) -> Seq<
    Sha2Row,
> {
    Seq::new(
        n,
        |j: int|
            {
                let (state, input) = sha2_input(inputs, j / sha2::CLOCKS as int);
                sha2::row_at(state, input, rc, j % sha2::CLOCKS as int)
            },
    )
}

/// What the first `n` cycles look up.
pub open spec fn sha2_lookups(inputs: Seq<([u32; 8], [u32; 16])>, rc: Seq<u32>, n: nat) -> Seq<
    Seq<usize>,
> {
    Seq::new(
        n,
        |k: int|
            {
                let (state, input) = sha2_input(inputs, k);
                invocation_lookups(state, input, rc).map_values(|i: int| i as usize)
            },
    )
}

/// A trace of SHA2-256.
pub struct Sha2Trace {
    pub rows: Vec<Sha2Row>,
    pub range_counts: Vec<u64>,
}

/// A trace over `num_rows` rows holds the invocations on these inputs, and on zeros behind them as
/// far as they fit, and its counts are those of its lookups and of the rows that are left.
pub open spec fn sha2_filled(
    r: Sha2Trace,
    num_rows: usize,
    inputs: Seq<([u32; 8], [u32; 16])>,
    rc: Seq<u32>,
) -> bool {
    let n = invocations(num_rows as int, sha2::CLOCKS as int);
    let left = num_rows - n * sha2::CLOCKS;
    &&& r.rows@ == sha2_rows(inputs, rc, (n * sha2::CLOCKS) as nat)
    &&& r.range_counts@.len() == sha2::RANGE_SIZE
    &&& forall|t: int|
        0 <= t < sha2::RANGE_SIZE ==> #[trigger] r.range_counts@[t] == total(
            sha2_lookups(inputs, rc, n as nat),
            t,
        ) + (if t == 0 {
            left
        } else {
            0
        })
}

/// Fill a trace of SHA2-256 with invocations. Every cycle has to be an invocation: those left over
/// are of zeros. The rows behind the last cycle look up carries of zero.
pub fn fill_sha2(num_rows: usize, inputs: &Vec<([u32; 8], [u32; 16])>, rc: &[u32; 64]) -> (r:
    Sha2Trace)
    requires
        sha2::CLOCKS <= num_rows,
        inputs@.len() <= invocations(num_rows as int, sha2::CLOCKS as int),
    ensures
        sha2_filled(r, num_rows, inputs@, rc@),
{
    let n: usize = num_available(num_rows, sha2::CLOCKS);
    proof {
        law_invocations_fit(num_rows as int, sha2::CLOCKS as int);
    }
    let mut rows: Vec<Sha2Row> = Vec::new();
    let mut counts: Vec<u64> = zeros(sha2::RANGE_SIZE);
    let mut k: usize = 0;
    assert(rows@ =~= sha2_rows(inputs@, rc@, 0));
    while k < n
        invariant
            k <= n,
            n * sha2::CLOCKS <= num_rows,
            rows@ == sha2_rows(inputs@, rc@, (k * sha2::CLOCKS) as nat),
            counts@.len() == sha2::RANGE_SIZE,
            forall|t: int|
                0 <= t < sha2::RANGE_SIZE ==> #[trigger] counts@[t] == total(
                    sha2_lookups(inputs@, rc@, k as nat),
                    t,
                ),
        decreases n - k,
    {
        let (state, input): ([u32; 8], [u32; 16]) = if k < inputs.len() {
            (inputs[k].0, inputs[k].1)
        } else {
            ([0; 8], [0; 16])
        };
        let ghost lists = sha2_lookups(inputs@, rc@, k as nat);
        let ghost more = sha2_lookups(inputs@, rc@, (k + 1) as nat);
        proof {
            assert(sha2_input(inputs@, k as int).0 =~= state@);
            assert(sha2_input(inputs@, k as int).1 =~= input@);
        }
        let (mut part, _out) = sha2::process_trace(&state, &input, rc);
        let looked: Vec<usize> = sha2::lookups(&state, &input, rc, &part);
        proof {
            lemma_indices(looked@, invocation_lookups(state@, input@, rc@));
            assert(more.drop_last() =~= lists);
            assert(more.last() == looked@);
            lemma_counts_fit(counts@, lists, 72, 72);
        }
        add_lookups(&mut counts, &looked, 1);
        let ghost first = rows@;
        let ghost taken = part@;
        rows.append(&mut part);
        proof {
            assert(rows@ == first + taken);
            let next = sha2_rows(inputs@, rc@, ((k + 1) * sha2::CLOCKS) as nat);
            assert forall|j: int| 0 <= j < 72 * (k + 1) implies rows@[j] == next[j] by {
                if j < 72 * k {
                    assert(first[j] == next[j]);
                } else {
                    assert(j / 72 == k && j % 72 == j - 72 * k);
                    assert(taken[j - 72 * k] == sha2::row_at(state@, input@, rc@, j - 72 * k));
                }
            }
            assert(rows@ =~= next);
        }
        k = k + 1;
    }
    let left: usize = num_rows - n * sha2::CLOCKS;
    proof {
        lemma_counts_fit(
            counts@,
            sha2_lookups(inputs@, rc@, n as nat),
            72,
            left as nat,
        );
    }
    let zero: usize = sha2::range_row(0, 0, 0);
    let next: u64 = counts[zero] + left as u64;
    counts[zero] = next;
    Sha2Trace { rows, range_counts: counts }
}

} // verus!
