//! Placing PLONK constraints into the free gates of a trace.
//!
//! A row has gates of three cells each, and two banks of five coefficients: gates of one bank
//! all satisfy the same equation. A row is opened by one constraint, which fills every gate of
//! the bank; constraints with the same coefficients then take over gates after the first, one
//! by one. Rows of custom gates that leave gates free are opened first, tier by tier; then rows of
//! their own.
use vstd::prelude::*;

use crate::plonk2pil::grid::with_cell;
use crate::plonk2pil::to_plonk::PlonkConstraint;

verus! {

/// The coefficients of a gate; constraints that share them can share a bank.
pub type Key = (u64, u64, u64, u64, u64);

/// The coefficients of a constraint.
pub open spec fn key_of(c: PlonkConstraint) -> Key {
    (c[3], c[4], c[5], c[6], c[7])
}

/// What a row of some kind offers to PLONK constraints.
#[derive(Clone, Copy, PartialEq, Eq, Structural, Debug)]
pub struct Tier {
    /// The bank that the opening constraint uses.
    pub bank: usize,
    /// Gates that the opening constraint fills: `first..end`.
    pub first: usize,
    pub end: usize,
    /// Gates of bank 1 that stay free for another opening: `half_first..half_end`.
    pub half_first: usize,
    pub half_end: usize,
}

/// A run of gates in a row.
#[derive(Clone, Copy, PartialEq, Eq, Structural, Debug)]
pub struct Slots {
    pub row: usize,
    pub next: usize,
    pub end: usize,
}

/// The state of a placement.
pub struct Placing {
    pub cells: Seq<Seq<u32>>,
    pub coefs: Seq<Seq<u64>>,
    /// Opened gates that can be taken over, by coefficients.
    pub partial: Map<Key, Slots>,
    /// Second banks waiting to be opened, first come first served.
    pub half: Seq<Slots>,
    /// Rows waiting to be opened, per tier.
    pub queues: Seq<Seq<usize>>,
    /// The next row without any gate.
    pub row: nat,
}

/// One gate of a row set to a constraint's signals.
pub open spec fn with_gate(
    cells: Seq<Seq<u32>>,
    gate: int,
    row: int,
    c: PlonkConstraint,
) -> Seq<Seq<u32>> {
    with_cell(
        with_cell(with_cell(cells, 3 * gate, row, c[0] as u32), 3 * gate + 1, row, c[1] as u32),
        3 * gate + 2,
        row,
        c[2] as u32,
    )
}

/// Gates `a..b` of a row set to a constraint's signals.
pub open spec fn with_gates(
    cells: Seq<Seq<u32>>,
    a: int,
    b: int,
    row: int,
    c: PlonkConstraint,
) -> Seq<Seq<u32>>
    decreases b - a,
{
    if a >= b {
        cells
    } else {
        with_gate(with_gates(cells, a, b - 1, row, c), b - 1, row, c)
    }
}

/// One bank of a row set to a constraint's coefficients.
pub open spec fn with_bank(
    coefs: Seq<Seq<u64>>,
    bank: int,
    row: int,
    c: PlonkConstraint,
) -> Seq<Seq<u64>> {
    with_cell(
        with_cell(
            with_cell(
                with_cell(with_cell(coefs, 5 * bank, row, c[3]), 5 * bank + 1, row, c[4]),
                5 * bank + 2,
                row,
                c[5],
            ),
            5 * bank + 3,
            row,
            c[6],
        ),
        5 * bank + 4,
        row,
        c[7],
    )
}

/// The first tier from `i` on that has a row waiting.
pub open spec fn ready_from(queues: Seq<Seq<usize>>, i: int) -> Option<int>
    decreases queues.len() - i,
{
    if i < 0 || i >= queues.len() {
        None
    } else if queues[i].len() > 0 {
        Some(i)
    } else {
        ready_from(queues, i + 1)
    }
}

/// Remember gates after the first of a run, where there are any.
pub open spec fn keep_open(partial: Map<Key, Slots>, k: Key, row: usize, next: int, end: int) -> Map<
    Key,
    Slots,
> {
    if next < end {
        partial.insert(k, Slots { row, next: next as usize, end: end as usize })
    } else {
        partial
    }
}

/// Open a row for a constraint.
pub open spec fn open_row(st: Placing, t: Tier, row: usize, c: PlonkConstraint) -> Placing {
    Placing {
        cells: with_gates(st.cells, t.first as int, t.end as int, row as int, c),
        coefs: with_bank(st.coefs, t.bank as int, row as int, c),
        partial: keep_open(st.partial, key_of(c), row, t.first + 1, t.end as int),
        half: if t.half_first < t.half_end {
            st.half.push(Slots { row, next: t.half_first, end: t.half_end })
        } else {
            st.half
        },
        queues: st.queues,
        row: st.row,
    }
}

/// Place one constraint: into an open gate with its coefficients, else into a waiting second
/// bank, else into the first waiting row by tier, else into a new row.
pub open spec fn place(tiers: Seq<Tier>, pure_tier: Tier, st: Placing, c: PlonkConstraint) -> Placing {
    let k = key_of(c);
    if st.partial.dom().contains(k) {
        let s = st.partial[k];
        Placing {
            cells: with_gate(st.cells, s.next as int, s.row as int, c),
            partial: if s.next + 1 < s.end {
                st.partial.insert(
                    k,
                    Slots { row: s.row, next: (s.next + 1) as usize, end: s.end },
                )
            } else {
                st.partial.remove(k)
            },
            ..st
        }
    } else if st.half.len() > 0 {
        let s = st.half[0];
        Placing {
            cells: with_gates(st.cells, s.next as int, s.end as int, s.row as int, c),
            coefs: with_bank(st.coefs, 1, s.row as int, c),
            partial: keep_open(st.partial, k, s.row, s.next + 1, s.end as int),
            half: st.half.skip(1),
            ..st
        }
    } else {
        match ready_from(st.queues, 0) {
            Some(i) => {
                let opened = open_row(st, tiers[i], st.queues[i][0], c);
                Placing { queues: st.queues.update(i, st.queues[i].skip(1)), ..opened }
            },
            None => {
                let opened = open_row(st, pure_tier, st.row as usize, c);
                Placing { row: st.row + 1, ..opened }
            },
        }
    }
}

/// Place the first `n` constraints.
pub open spec fn place_all(
    tiers: Seq<Tier>,
    pure_tier: Tier,
    st: Placing,
    cs: Seq<PlonkConstraint>,
    n: nat,
) -> Placing
    decreases n,
{
    if n == 0 {
        st
    } else {
        place(tiers, pure_tier, place_all(tiers, pure_tier, st, cs, (n - 1) as nat), cs[n - 1])
    }
}

/// The state of a placement without its rows: what is needed to count the rows it takes.
pub struct Shape {
    pub partial: Map<Key, (int, int)>,
    pub half: Seq<(int, int)>,
    pub waiting: Seq<nat>,
    pub rows: nat,
}

/// The first tier from `i` on with a row waiting.
pub open spec fn waiting_from(waiting: Seq<nat>, i: int) -> Option<int>
    decreases waiting.len() - i,
{
    if i < 0 || i >= waiting.len() {
        None
    } else if waiting[i] > 0 {
        Some(i)
    } else {
        waiting_from(waiting, i + 1)
    }
}

pub open spec fn keep_open_shape(partial: Map<Key, (int, int)>, k: Key, next: int, end: int) -> Map<
    Key,
    (int, int),
> {
    if next < end {
        partial.insert(k, (next, end))
    } else {
        partial
    }
}

pub open spec fn open_shape(st: Shape, t: Tier, k: Key) -> Shape {
    Shape {
        partial: keep_open_shape(st.partial, k, t.first + 1, t.end as int),
        half: if t.half_first < t.half_end {
            st.half.push((t.half_first as int, t.half_end as int))
        } else {
            st.half
        },
        waiting: st.waiting,
        rows: st.rows,
    }
}

/// Place one constraint, keeping track of rows only.
pub open spec fn place_shape(tiers: Seq<Tier>, pure_tier: Tier, st: Shape, k: Key) -> Shape {
    if st.partial.dom().contains(k) {
        let (next, end) = st.partial[k];
        Shape {
            partial: if next + 1 < end {
                st.partial.insert(k, (next + 1, end))
            } else {
                st.partial.remove(k)
            },
            ..st
        }
    } else if st.half.len() > 0 {
        let (next, end) = st.half[0];
        Shape {
            partial: keep_open_shape(st.partial, k, next + 1, end),
            half: st.half.skip(1),
            ..st
        }
    } else {
        match waiting_from(st.waiting, 0) {
            Some(i) => {
                let opened = open_shape(st, tiers[i], k);
                Shape { waiting: st.waiting.update(i, (st.waiting[i] - 1) as nat), ..opened }
            },
            None => {
                let opened = open_shape(st, pure_tier, k);
                Shape { rows: st.rows + 1, ..opened }
            },
        }
    }
}

/// Place the first `n` constraints, keeping track of rows only.
pub open spec fn shape_all(
    tiers: Seq<Tier>,
    pure_tier: Tier,
    waiting: Seq<nat>,
    cs: Seq<PlonkConstraint>,
    n: nat,
) -> Shape
    decreases n,
{
    if n == 0 {
        Shape { partial: Map::empty(), half: Seq::empty(), waiting, rows: 0 }
    } else {
        place_shape(
            tiers,
            pure_tier,
            shape_all(tiers, pure_tier, waiting, cs, (n - 1) as nat),
            key_of(cs[n - 1]),
        )
    }
}

/// How many rows of their own the constraints need.
pub open spec fn own_rows(
    tiers: Seq<Tier>,
    pure_tier: Tier,
    waiting: Seq<nat>,
    cs: Seq<PlonkConstraint>,
) -> nat {
    shape_all(tiers, pure_tier, waiting, cs, cs.len()).rows
}

/// The number of rows waiting per tier.
pub open spec fn waiting_of(queues: Seq<Seq<usize>>) -> Seq<nat> {
    Seq::new(queues.len(), |i: int| queues[i].len())
}

/// A placement without its rows; `first` is the row it started from.
pub open spec fn shape_of(st: Placing, first: nat) -> Shape {
    Shape {
        partial: Map::new(
            |k: Key| st.partial.dom().contains(k),
            |k: Key| (st.partial[k].next as int, st.partial[k].end as int),
        ),
        half: Seq::new(
            st.half.len(),
            |i: int| (st.half[i].next as int, st.half[i].end as int),
        ),
        waiting: waiting_of(st.queues),
        rows: (st.row - first) as nat,
    }
}

pub proof fn lemma_ready_waiting(queues: Seq<Seq<usize>>, i: int)
    requires
        0 <= i,
    ensures
        ready_from(queues, i) == waiting_from(waiting_of(queues), i),
        ready_from(queues, i) matches Some(j) ==> i <= j < queues.len() && queues[j].len() > 0,
    decreases queues.len() - i,
{
    if i < queues.len() {
        lemma_ready_waiting(queues, i + 1);
    }
}

/// Placing and forgetting rows is forgetting rows and placing.
proof fn lemma_shape_step(
    tiers: Seq<Tier>,
    pure_tier: Tier,
    st: Placing,
    c: PlonkConstraint,
    first: nat,
)
    requires
        st.queues.len() == tiers.len(),
        first <= st.row,
    ensures
        shape_of(place(tiers, pure_tier, st, c), first) == place_shape(
            tiers,
            pure_tier,
            shape_of(st, first),
            key_of(c),
        ),
        place(tiers, pure_tier, st, c).queues.len() == tiers.len(),
        first <= place(tiers, pure_tier, st, c).row,
{
    let k = key_of(c);
    let next = place(tiers, pure_tier, st, c);
    let want = place_shape(tiers, pure_tier, shape_of(st, first), k);
    let got = shape_of(next, first);
    lemma_ready_waiting(st.queues, 0);
    assert(got.partial =~= want.partial);
    assert(got.half =~= want.half);
    assert(got.waiting =~= want.waiting);
    assert(got.rows == want.rows);
}

/// The rows a placement takes are the rows that were counted.
pub proof fn law_rows_counted(
    tiers: Seq<Tier>,
    pure_tier: Tier,
    st: Placing,
    cs: Seq<PlonkConstraint>,
    n: nat,
)
    requires
        st.queues.len() == tiers.len(),
        st.partial == Map::<Key, Slots>::empty(),
        st.half.len() == 0,
        n <= cs.len(),
    ensures
        shape_of(place_all(tiers, pure_tier, st, cs, n), st.row) == shape_all(
            tiers,
            pure_tier,
            waiting_of(st.queues),
            cs,
            n,
        ),
        place_all(tiers, pure_tier, st, cs, n).row == st.row + shape_all(
            tiers,
            pure_tier,
            waiting_of(st.queues),
            cs,
            n,
        ).rows,
        place_all(tiers, pure_tier, st, cs, n).queues.len() == tiers.len(),
    decreases n,
{
    if n == 0 {
        let got = shape_of(st, st.row);
        assert(got.partial =~= Map::<Key, (int, int)>::empty());
        assert(got.half =~= Seq::<(int, int)>::empty());
    } else {
        law_rows_counted(tiers, pure_tier, st, cs, (n - 1) as nat);
        lemma_shape_step(
            tiers,
            pure_tier,
            place_all(tiers, pure_tier, st, cs, (n - 1) as nat),
            cs[n - 1],
            st.row,
        );
    }
}

pub proof fn lemma_rows_grow(
    tiers: Seq<Tier>,
    pure_tier: Tier,
    waiting: Seq<nat>,
    cs: Seq<PlonkConstraint>,
    i: nat,
    n: nat,
)
    requires
        i <= n,
    ensures
        shape_all(tiers, pure_tier, waiting, cs, i).rows <= shape_all(
            tiers,
            pure_tier,
            waiting,
            cs,
            n,
        ).rows,
        shape_all(tiers, pure_tier, waiting, cs, n).rows <= n,
    decreases n,
{
    if i < n {
        lemma_rows_grow(tiers, pure_tier, waiting, cs, i, (n - 1) as nat);
    } else if n > 0 {
        lemma_rows_grow(tiers, pure_tier, waiting, cs, (n - 1) as nat, (n - 1) as nat);
    }
}

} // verus!
