//! Why a placement is right: every constraint ends up in a gate whose bank carries its
//! coefficients, every opened gate holds a constraint, and cells of custom gates stay.
use vstd::prelude::*;

use crate::plonk2pil::grid::{is_table, with_cell};
use crate::plonk2pil::placement::{
    key_of, lemma_ready_waiting, place, place_all, ready_from, with_bank, with_gate, with_gates,
    Key, Placing, Slots, Tier,
};
use crate::plonk2pil::placer::{
    fits, lemma_gates_table, lemma_place_fits, lemma_table_cell, slots_fit, tier_fits,
};
use crate::plonk2pil::to_plonk::PlonkConstraint;

verus! {

/// The bank of a gate: gates below `split` use bank 0, the others bank 1.
pub open spec fn bank_of(gate: int, split: int) -> int {
    if gate < split {
        0
    } else {
        1
    }
}

/// The tier opens gates of one bank, and leaves only gates of bank 1 waiting.
pub open spec fn tier_splits(t: Tier, split: int) -> bool {
    &&& t.bank == 0 ==> t.end <= split && (t.half_first < t.half_end ==> split <= t.half_first)
    &&& t.bank == 1 ==> split <= t.first && t.half_end <= t.half_first
}

/// A gate of a row holds a constraint: its cells are the constraint's signals, and the bank that
/// it uses carries the constraint's coefficients.
pub open spec fn slot_holds(
    st: Placing,
    row: int,
    gate: int,
    split: int,
    c: PlonkConstraint,
) -> bool {
    let b = 5 * bank_of(gate, split);
    &&& st.cells[3 * gate][row] == c[0] as u32
    &&& st.cells[3 * gate + 1][row] == c[1] as u32
    &&& st.cells[3 * gate + 2][row] == c[2] as u32
    &&& bank_carries(st, row, bank_of(gate, split), key_of(c))
}

/// A bank of a row carries the coefficients.
pub open spec fn bank_carries(st: Placing, row: int, bank: int, k: Key) -> bool {
    &&& st.coefs[5 * bank][row] == k.0
    &&& st.coefs[5 * bank + 1][row] == k.1
    &&& st.coefs[5 * bank + 2][row] == k.2
    &&& st.coefs[5 * bank + 3][row] == k.3
    &&& st.coefs[5 * bank + 4][row] == k.4
}

/// Gates that placing one constraint opens.
pub open spec fn newly_opened(
    tiers: Seq<Tier>,
    pure_tier: Tier,
    st: Placing,
    c: PlonkConstraint,
) -> Set<(int, int)> {
    if st.partial.dom().contains(key_of(c)) {
        Set::empty()
    } else if st.half.len() > 0 {
        let s = st.half[0];
        Set::new(|x: (int, int)| x.0 == s.row && s.next <= x.1 < s.end)
    } else {
        match ready_from(st.queues, 0) {
            Some(i) => Set::new(
                |x: (int, int)| x.0 == st.queues[i][0] && tiers[i].first <= x.1 < tiers[i].end,
            ),
            None => Set::new(
                |x: (int, int)| x.0 == st.row && pure_tier.first <= x.1 < pure_tier.end,
            ),
        }
    }
}

/// Gates that placing the first `n` constraints opens, as (row, gate).
pub open spec fn opened_gates(
    tiers: Seq<Tier>,
    pure_tier: Tier,
    st: Placing,
    cs: Seq<PlonkConstraint>,
    n: nat,
) -> Set<(int, int)>
    decreases n,
{
    if n == 0 {
        Set::empty()
    } else {
        let before = place_all(tiers, pure_tier, st, cs, (n - 1) as nat);
        opened_gates(tiers, pure_tier, st, cs, (n - 1) as nat).union(
            newly_opened(tiers, pure_tier, before, cs[n - 1]),
        )
    }
}

/// The row is waiting in some tier.
pub open spec fn queued(st: Placing, row: int) -> bool {
    exists|i: int, j: int|
        0 <= i < st.queues.len() && 0 <= j < st.queues[i].len() && #[trigger] st.queues[i][j] == row
}

/// No row waits twice.
pub open spec fn queues_distinct(queues: Seq<Seq<usize>>) -> bool {
    forall|i: int, j: int, x: int, y: int|
        0 <= i < queues.len() && 0 <= j < queues[i].len() && 0 <= x < queues.len() && 0 <= y
            < queues[x].len() && #[trigger] queues[i][j] == #[trigger] queues[x][y] ==> i == x && j
            == y
}

/// Runs, waiting banks and waiting rows do not overlap.
spec fn apart(st: Placing, split: int) -> bool {
    &&& forall|k: Key, l: Key|
        #![trigger st.partial.dom().contains(k), st.partial.dom().contains(l)]
        st.partial.dom().contains(k) && st.partial.dom().contains(l) && k != l
            && st.partial[k].row == st.partial[l].row ==> bank_of(
            st.partial[k].next as int,
            split,
        ) != bank_of(st.partial[l].next as int, split)
    &&& forall|i: int, j: int|
        0 <= i < st.half.len() && 0 <= j < st.half.len() && i != j ==> (#[trigger] st.half[i]).row
            != (#[trigger] st.half[j]).row
    &&& forall|k: Key, i: int|
        #![trigger st.partial.dom().contains(k), st.half[i]]
        st.partial.dom().contains(k) && 0 <= i < st.half.len() && st.partial[k].row
            == st.half[i].row ==> st.partial[k].next < split
    &&& forall|i: int| 0 <= i < st.half.len() ==> split <= (#[trigger] st.half[i]).next
    &&& queues_distinct(st.queues)
    &&& forall|k: Key| #[trigger] st.partial.dom().contains(k) ==> !queued(st, st.partial[k].row as int)
    &&& forall|i: int| 0 <= i < st.half.len() ==> !queued(st, (#[trigger] st.half[i]).row as int)
    &&& forall|k: Key| #[trigger] st.partial.dom().contains(k) ==> st.partial[k].row < st.row
    &&& forall|i: int| 0 <= i < st.half.len() ==> (#[trigger] st.half[i]).row < st.row
    &&& forall|i: int, j: int|
        0 <= i < st.queues.len() && 0 <= j < st.queues[i].len() ==> #[trigger] st.queues[i][j]
            < st.row
    &&& forall|k: Key| #[trigger]
        st.partial.dom().contains(k) && st.partial[k].next < split ==> st.partial[k].end <= split
    &&& forall|k: Key| #[trigger]
        st.partial.dom().contains(k) ==> bank_carries(
            st,
            st.partial[k].row as int,
            bank_of(st.partial[k].next as int, split),
            k,
        )
}

/// No later placement will write this gate or its bank.
spec fn settled(st: Placing, row: int, gate: int, split: int) -> bool {
    &&& row < st.row
    &&& forall|k: Key| #[trigger]
        st.partial.dom().contains(k) && st.partial[k].row == row && bank_of(
            st.partial[k].next as int,
            split,
        ) == bank_of(gate, split) ==> gate < st.partial[k].next
    &&& forall|i: int|
        0 <= i < st.half.len() && (#[trigger] st.half[i]).row == row ==> gate < split
    &&& !queued(st, row)
}

/// The first `n` constraints sit in settled gates.
spec fn all_placed(
    st: Placing,
    split: int,
    gates: int,
    cs: Seq<PlonkConstraint>,
    n: int,
    at: Seq<(int, int)>,
) -> bool {
    &&& at.len() == n
    &&& forall|i: int|
        0 <= i < n ==> {
            &&& 0 <= (#[trigger] at[i]).0
            &&& 0 <= at[i].1 < gates
            &&& settled(st, at[i].0, at[i].1, split)
            &&& slot_holds(st, at[i].0, at[i].1, split, cs[i])
        }
}

/// Every opened gate holds one of the first `n` constraints.
spec fn all_hold(
    st: Placing,
    split: int,
    gates: int,
    cs: Seq<PlonkConstraint>,
    n: int,
    opened: Set<(int, int)>,
) -> bool {
    &&& forall|x: (int, int)| #[trigger]
        opened.contains(x) ==> {
            &&& 0 <= x.0 < st.row
            &&& 0 <= x.1 < gates
            &&& !queued(st, x.0)
            &&& exists|j: int| 0 <= j < n && slot_holds(st, x.0, x.1, split, #[trigger] cs[j])
        }
    &&& forall|x: (int, int), i: int|
        #![trigger opened.contains(x), st.half[i]]
        opened.contains(x) && 0 <= i < st.half.len() && st.half[i].row == x.0 ==> x.1 < split
}

proof fn lemma_gate_cells(
    cells: Seq<Seq<u32>>,
    cols: int,
    rows: int,
    gate: int,
    row: int,
    c: PlonkConstraint,
    col: int,
    r: int,
)
    requires
        is_table(cells, cols, rows),
        0 <= gate,
        3 * gate + 2 < cols,
        0 <= row < rows,
        0 <= col < cols,
        0 <= r < rows,
    ensures
        with_gate(cells, gate, row, c)[col][r] == if r == row && col == 3 * gate {
            c[0] as u32
        } else if r == row && col == 3 * gate + 1 {
            c[1] as u32
        } else if r == row && col == 3 * gate + 2 {
            c[2] as u32
        } else {
            cells[col][r]
        },
{
    lemma_table_cell(cells, cols, rows, 3 * gate, row, c[0] as u32);
    let a = with_cell(cells, 3 * gate, row, c[0] as u32);
    lemma_table_cell(a, cols, rows, 3 * gate + 1, row, c[1] as u32);
    let b = with_cell(a, 3 * gate + 1, row, c[1] as u32);
    assert(cells[col].len() == rows);
    assert(a[col].len() == rows);
    assert(b[col].len() == rows);
    assert(cells[3 * gate].len() == rows);
    assert(a[3 * gate + 1].len() == rows);
    assert(b[3 * gate + 2].len() == rows);
}

proof fn lemma_gates_cells(
    cells: Seq<Seq<u32>>,
    cols: int,
    rows: int,
    a: int,
    b: int,
    row: int,
    c: PlonkConstraint,
    g: int,
    o: int,
    r: int,
)
    requires
        is_table(cells, cols, rows),
        0 <= a,
        3 * b <= cols,
        0 <= row < rows,
        0 <= o < 3,
        0 <= 3 * g + o < cols,
        0 <= r < rows,
    ensures
        with_gates(cells, a, b, row, c)[3 * g + o][r] == if r == row && a <= g < b {
            c[o] as u32
        } else {
            cells[3 * g + o][r]
        },
    decreases b - a,
{
    if a < b {
        lemma_gates_table(cells, cols, rows, a, b - 1, row, c);
        lemma_gates_cells(cells, cols, rows, a, b - 1, row, c, g, o, r);
        lemma_gate_cells(
            with_gates(cells, a, b - 1, row, c),
            cols,
            rows,
            b - 1,
            row,
            c,
            3 * g + o,
            r,
        );
    }
}

proof fn lemma_bank_cells(
    coefs: Seq<Seq<u64>>,
    rows: int,
    bank: int,
    row: int,
    c: PlonkConstraint,
    x: int,
    r: int,
)
    requires
        is_table(coefs, 10, rows),
        0 <= bank < 2,
        0 <= row < rows,
        0 <= x < 10,
        0 <= r < rows,
    ensures
        with_bank(coefs, bank, row, c)[x][r] == if r == row && 5 * bank <= x < 5 * bank + 5 {
            c[3 + x - 5 * bank]
        } else {
            coefs[x][r]
        },
{
    let f = 5 * bank;
    lemma_table_cell(coefs, 10, rows, f, row, c[3]);
    let a = with_cell(coefs, f, row, c[3]);
    lemma_table_cell(a, 10, rows, f + 1, row, c[4]);
    let b = with_cell(a, f + 1, row, c[4]);
    lemma_table_cell(b, 10, rows, f + 2, row, c[5]);
    let d = with_cell(b, f + 2, row, c[5]);
    lemma_table_cell(d, 10, rows, f + 3, row, c[6]);
    let e = with_cell(d, f + 3, row, c[6]);
    lemma_table_cell(e, 10, rows, f + 4, row, c[7]);
    assert(coefs[x].len() == rows && a[x].len() == rows && b[x].len() == rows && d[x].len() == rows
        && e[x].len() == rows);
    assert(coefs[f].len() == rows && a[f + 1].len() == rows && b[f + 2].len() == rows
        && d[f + 3].len() == rows && e[f + 4].len() == rows);
}

/// A state that differs in one run of gates of one row, and at most in the bank of that run.
spec fn wrote(
    st: Placing,
    next: Placing,
    cols: int,
    rows: int,
    row: int,
    a: int,
    b: int,
    split: int,
    c: PlonkConstraint,
) -> bool {
    &&& forall|g: int, o: int, r: int|
        #![trigger next.cells[3 * g + o][r]]
        0 <= o < 3 && 0 <= 3 * g + o < cols && 0 <= r < rows ==> next.cells[3 * g + o][r] == if r
            == row && a <= g < b {
            c[o] as u32
        } else {
            st.cells[3 * g + o][r]
        }
    &&& forall|x: int, r: int|
        #![trigger next.coefs[x][r]]
        0 <= x < 10 && 0 <= r < rows ==> next.coefs[x][r] == if r == row && 5 * bank_of(a, split)
            <= x < 5 * bank_of(a, split) + 5 {
            c[3 + x - 5 * bank_of(a, split)]
        } else {
            st.coefs[x][r]
        }
}

/// A written gate holds the constraint; the others hold what they held.
proof fn lemma_wrote(
    st: Placing,
    next: Placing,
    cols: int,
    rows: int,
    gates: int,
    row: int,
    a: int,
    b: int,
    split: int,
    c: PlonkConstraint,
    r: int,
    g: int,
    d: PlonkConstraint,
)
    requires
        3 * gates <= cols,
        wrote(st, next, cols, rows, row, a, b, split, c),
        0 <= g < gates,
        0 <= r < rows,
        a < split ==> b <= split,
    ensures
        r == row && a <= g < b ==> slot_holds(next, r, g, split, c),
        (r != row || !(a <= g < b)) && (r != row || bank_of(g, split) != bank_of(a, split)
            || key_of(c) == key_of(d)) && slot_holds(st, r, g, split, d) ==> slot_holds(
            next,
            r,
            g,
            split,
            d,
        ),
        (r != row || !(a <= g < b)) && (r != row || bank_of(g, split) != bank_of(a, split))
            ==> slot_holds(st, r, g, split, d) == slot_holds(next, r, g, split, d),
{
    let k = 5 * bank_of(g, split);
    assert(next.cells[3 * g + 0][r] == next.cells[3 * g][r]);
    assert(st.cells[3 * g + 0][r] == st.cells[3 * g][r]);
    assert(next.cells[3 * g + 1][r] == next.cells[3 * g + 1][r]);
    assert(next.cells[3 * g + 2][r] == next.cells[3 * g + 2][r]);
    assert(next.coefs[k][r] == next.coefs[k][r]);
    assert(next.coefs[k + 1][r] == next.coefs[k + 1][r]);
    assert(next.coefs[k + 2][r] == next.coefs[k + 2][r]);
    assert(next.coefs[k + 3][r] == next.coefs[k + 3][r]);
    assert(next.coefs[k + 4][r] == next.coefs[k + 4][r]);
}

proof fn lemma_wrote_bank(
    st: Placing,
    next: Placing,
    cols: int,
    rows: int,
    row: int,
    a: int,
    b: int,
    split: int,
    c: PlonkConstraint,
    r: int,
    bank: int,
    k: Key,
)
    requires
        wrote(st, next, cols, rows, row, a, b, split, c),
        0 <= r < rows,
        0 <= bank < 2,
    ensures
        r != row || bank != bank_of(a, split) ==> bank_carries(st, r, bank, k) == bank_carries(
            next,
            r,
            bank,
            k,
        ),
        r == row && bank == bank_of(a, split) ==> bank_carries(next, r, bank, key_of(c)),
{
    let x = 5 * bank;
    assert(next.coefs[x][r] == next.coefs[x][r]);
    assert(next.coefs[x + 1][r] == next.coefs[x + 1][r]);
    assert(next.coefs[x + 2][r] == next.coefs[x + 2][r]);
    assert(next.coefs[x + 3][r] == next.coefs[x + 3][r]);
    assert(next.coefs[x + 4][r] == next.coefs[x + 4][r]);
}

/// The row and the run of gates that placing a constraint writes.
spec fn run(tiers: Seq<Tier>, pure_tier: Tier, st: Placing, c: PlonkConstraint) -> (int, int, int) {
    if st.partial.dom().contains(key_of(c)) {
        let s = st.partial[key_of(c)];
        (s.row as int, s.next as int, s.next + 1)
    } else if st.half.len() > 0 {
        let s = st.half[0];
        (s.row as int, s.next as int, s.end as int)
    } else {
        match ready_from(st.queues, 0) {
            Some(i) => (st.queues[i][0] as int, tiers[i].first as int, tiers[i].end as int),
            None => (st.row as int, pure_tier.first as int, pure_tier.end as int),
        }
    }
}

/// What a placement step may rely on.
spec fn step_ok(
    tiers: Seq<Tier>,
    pure_tier: Tier,
    st: Placing,
    c: PlonkConstraint,
    cols: int,
    rows: int,
    gates: int,
    split: int,
) -> bool {
    &&& fits(st, cols, rows, gates)
    &&& st.queues.len() == tiers.len()
    &&& forall|i: int|
        0 <= i < tiers.len() ==> tier_fits(#[trigger] tiers[i], gates) && tier_splits(
            tiers[i],
            split,
        )
    &&& tier_fits(pure_tier, gates)
    &&& tier_splits(pure_tier, split)
    &&& place(tiers, pure_tier, st, c).row <= rows <= usize::MAX
    &&& apart(st, split)
}

proof fn lemma_step_wrote(
    tiers: Seq<Tier>,
    pure_tier: Tier,
    st: Placing,
    c: PlonkConstraint,
    cols: int,
    rows: int,
    gates: int,
    split: int,
)
    requires
        step_ok(tiers, pure_tier, st, c, cols, rows, gates, split),
    ensures
        ({
            let (row, a, b) = run(tiers, pure_tier, st, c);
            &&& 0 <= row < rows
            &&& 0 <= a < b <= gates
            &&& a < split ==> b <= split
            &&& wrote(
                st,
                place(tiers, pure_tier, st, c),
                cols,
                rows,
                row,
                a,
                b,
                split,
                c,
            )
        }),
{
    let k = key_of(c);
    let next = place(tiers, pure_tier, st, c);
    let (row, a, b) = run(tiers, pure_tier, st, c);
    lemma_ready_waiting(st.queues, 0);
    if st.partial.dom().contains(k) {
        let s = st.partial[k];
        assert(slots_fit(s, rows, gates));
        assert forall|g: int, o: int, r: int|
            #![trigger next.cells[3 * g + o][r]]
            0 <= o < 3 && 0 <= 3 * g + o < cols && 0 <= r < rows implies next.cells[3 * g + o][r]
            == if r == row && a <= g < b {
            c[o] as u32
        } else {
            st.cells[3 * g + o][r]
        } by {
            lemma_gate_cells(st.cells, cols, rows, a, row, c, 3 * g + o, r);
        }
        let bank = bank_of(a, split);
        assert(bank_carries(st, row, bank, k));
        assert forall|x: int, r: int|
            #![trigger next.coefs[x][r]]
            0 <= x < 10 && 0 <= r < rows implies next.coefs[x][r] == if r == row && 5 * bank <= x
            < 5 * bank + 5 {
            c[3 + x - 5 * bank]
        } else {
            st.coefs[x][r]
        } by {
            if r == row && 5 * bank <= x < 5 * bank + 5 {
                let d = x - 5 * bank;
                assert(d == 0 || d == 1 || d == 2 || d == 3 || d == 4);
            }
        }
    } else {
        let bank = bank_of(a, split);
        if st.half.len() > 0 {
            assert(slots_fit(st.half[0], rows, gates));
            assert(split <= st.half[0].next);
        } else {
            match ready_from(st.queues, 0) {
                Some(i) => {
                    assert(tier_fits(tiers[i], gates) && tier_splits(tiers[i], split));
                    assert(st.queues[i][0] < rows);
                },
                None => {},
            }
        }
        assert forall|g: int, o: int, r: int|
            #![trigger next.cells[3 * g + o][r]]
            0 <= o < 3 && 0 <= 3 * g + o < cols && 0 <= r < rows implies next.cells[3 * g + o][r]
            == if r == row && a <= g < b {
            c[o] as u32
        } else {
            st.cells[3 * g + o][r]
        } by {
            lemma_gates_cells(st.cells, cols, rows, a, b, row, c, g, o, r);
        }
        assert forall|x: int, r: int|
            #![trigger next.coefs[x][r]]
            0 <= x < 10 && 0 <= r < rows implies next.coefs[x][r] == if r == row && 5 * bank <= x
            < 5 * bank + 5 {
            c[3 + x - 5 * bank]
        } else {
            st.coefs[x][r]
        } by {
            lemma_bank_cells(st.coefs, rows, bank, row, c, x, r);
        }
    }
}

/// Opening a row takes it out of the queues, and puts no row in.
proof fn lemma_step_queued(
    tiers: Seq<Tier>,
    pure_tier: Tier,
    st: Placing,
    c: PlonkConstraint,
    cols: int,
    rows: int,
    gates: int,
    split: int,
)
    requires
        step_ok(tiers, pure_tier, st, c, cols, rows, gates, split),
    ensures
        queues_distinct(place(tiers, pure_tier, st, c).queues),
        forall|r: int| #[trigger]
            queued(place(tiers, pure_tier, st, c), r) ==> queued(st, r) && r != run(
                tiers,
                pure_tier,
                st,
                c,
            ).0,
        forall|i: int, j: int|
            0 <= i < place(tiers, pure_tier, st, c).queues.len() && 0 <= j < place(
                tiers,
                pure_tier,
                st,
                c,
            ).queues[i].len() ==> #[trigger] place(tiers, pure_tier, st, c).queues[i][j] < st.row,
{
    let k = key_of(c);
    let next = place(tiers, pure_tier, st, c);
    let row = run(tiers, pure_tier, st, c).0;
    lemma_ready_waiting(st.queues, 0);
    if !st.partial.dom().contains(k) && st.half.len() == 0 && ready_from(st.queues, 0) is Some {
        let t = ready_from(st.queues, 0)->0;
        assert forall|i: int, j: int|
            0 <= i < next.queues.len() && 0 <= j < next.queues[i].len() implies #[trigger] next.queues[i][j]
            == st.queues[i][if i == t {
            j + 1
        } else {
            j
        }] by {}
        assert forall|r: int| #[trigger] queued(next, r) implies queued(st, r) && r != row by {
            let (i, j) = choose|i: int, j: int|
                0 <= i < next.queues.len() && 0 <= j < next.queues[i].len()
                    && #[trigger] next.queues[i][j] == r;
            let jj = if i == t {
                j + 1
            } else {
                j
            };
            assert(next.queues[i][j] == st.queues[i][jj]);
            assert(st.queues[t][0] == row);
        }
        assert(queues_distinct(next.queues)) by {
            assert forall|i: int, j: int, x: int, y: int|
                0 <= i < next.queues.len() && 0 <= j < next.queues[i].len() && 0 <= x
                    < next.queues.len() && 0 <= y < next.queues[x].len()
                    && #[trigger] next.queues[i][j] == #[trigger] next.queues[x][y] implies i == x
                && j == y by {
                let jj = if i == t {
                    j + 1
                } else {
                    j
                };
                let yy = if x == t {
                    y + 1
                } else {
                    y
                };
                assert(next.queues[i][j] == st.queues[i][jj]);
                assert(next.queues[x][y] == st.queues[x][yy]);
            }
        }
        assert forall|i: int, j: int|
            0 <= i < next.queues.len() && 0 <= j < next.queues[i].len() implies #[trigger] next.queues[i][j]
            < st.row by {
            let jj = if i == t {
                j + 1
            } else {
                j
            };
            assert(next.queues[i][j] == st.queues[i][jj]);
        }
    } else {
        assert(next.queues == st.queues);
        assert forall|r: int| #[trigger] queued(next, r) implies queued(st, r) && r != row by {
            let (i, j) = choose|i: int, j: int|
                0 <= i < next.queues.len() && 0 <= j < next.queues[i].len()
                    && #[trigger] next.queues[i][j] == r;
            assert(st.queues[i][j] == r);
            if st.partial.dom().contains(k) {
                assert(!queued(st, st.partial[k].row as int));
            } else if st.half.len() > 0 {
                assert(!queued(st, st.half[0].row as int));
            }
        }
    }
}

/// The runs after a step: the run that was written, shortened by one, and the runs before.
proof fn lemma_step_partial(
    tiers: Seq<Tier>,
    pure_tier: Tier,
    st: Placing,
    c: PlonkConstraint,
    cols: int,
    rows: int,
    gates: int,
    split: int,
    l: Key,
)
    requires
        step_ok(tiers, pure_tier, st, c, cols, rows, gates, split),
        place(tiers, pure_tier, st, c).partial.dom().contains(l),
    ensures
        ({
            let next = place(tiers, pure_tier, st, c);
            let (row, a, b) = run(tiers, pure_tier, st, c);
            let k = key_of(c);
            if l == k {
                let s = next.partial[k];
                &&& s.row == row
                &&& s.next == a + 1
                &&& bank_of(s.next as int, split) == bank_of(a, split)
                &&& s.next < split ==> s.end <= split
            } else {
                &&& st.partial.dom().contains(l)
                &&& next.partial[l] == st.partial[l]
                &&& st.partial[l].row == row ==> bank_of(st.partial[l].next as int, split)
                    != bank_of(a, split)
            }
        }),
{
    let k = key_of(c);
    let next = place(tiers, pure_tier, st, c);
    let (row, a, b) = run(tiers, pure_tier, st, c);
    lemma_ready_waiting(st.queues, 0);
    lemma_step_wrote(tiers, pure_tier, st, c, cols, rows, gates, split);
    if st.partial.dom().contains(k) {
        assert(slots_fit(st.partial[k], rows, gates));
    } else if st.half.len() > 0 {
        assert(slots_fit(st.half[0], rows, gates));
        assert(split <= st.half[0].next);
        if l != k {
            assert(st.partial.dom().contains(l));
        }
    } else {
        match ready_from(st.queues, 0) {
            Some(i) => {
                assert(tier_fits(tiers[i], gates) && tier_splits(tiers[i], split));
                if l != k {
                    assert(st.partial.dom().contains(l));
                    assert(st.queues[i][0] == row);
                    assert(queued(st, row));
                }
            },
            None => {},
        }
    }
}

/// The waiting banks after a step: those before, without the one written, and at most one more in
/// a row that was just opened.
proof fn lemma_step_half(
    tiers: Seq<Tier>,
    pure_tier: Tier,
    st: Placing,
    c: PlonkConstraint,
    cols: int,
    rows: int,
    gates: int,
    split: int,
    i: int,
)
    requires
        step_ok(tiers, pure_tier, st, c, cols, rows, gates, split),
        0 <= i < place(tiers, pure_tier, st, c).half.len(),
    ensures
        ({
            let next = place(tiers, pure_tier, st, c);
            let (row, a, b) = run(tiers, pure_tier, st, c);
            let s = next.half[i];
            &&& split <= s.next
            &&& s.row == row ==> bank_of(a, split) == 0
            &&& s.row < next.row
            &&& !queued(next, s.row as int)
            &&& (s.row == row && !st.partial.dom().contains(key_of(c))) || exists|j: int|
                0 <= j < st.half.len() && #[trigger] st.half[j] == s
        }),
{
    let k = key_of(c);
    let next = place(tiers, pure_tier, st, c);
    let (row, a, b) = run(tiers, pure_tier, st, c);
    lemma_ready_waiting(st.queues, 0);
    lemma_step_wrote(tiers, pure_tier, st, c, cols, rows, gates, split);
    lemma_step_queued(tiers, pure_tier, st, c, cols, rows, gates, split);
    let s = next.half[i];
    if st.partial.dom().contains(k) {
        assert(st.half[i] == s);
        assert(!queued(st, st.half[i].row as int));
    } else if st.half.len() > 0 {
        assert(next.half[i] == st.half[i + 1]);
        assert(!queued(st, st.half[i + 1].row as int));
        assert(st.half[0].row != st.half[i + 1].row);
    } else {
        match ready_from(st.queues, 0) {
            Some(t) => {
                assert(tier_fits(tiers[t], gates) && tier_splits(tiers[t], split));
                assert(st.queues[t][0] == row);
            },
            None => {
                if queued(next, s.row as int) {
                    let (x, y) = choose|x: int, y: int|
                        0 <= x < next.queues.len() && 0 <= y < next.queues[x].len()
                            && #[trigger] next.queues[x][y] == s.row;
                    assert(next.queues[x][y] < st.row);
                }
            },
        }
    }
}

/// A step keeps runs, waiting banks and waiting rows apart.
proof fn lemma_step_apart(
    tiers: Seq<Tier>,
    pure_tier: Tier,
    st: Placing,
    c: PlonkConstraint,
    cols: int,
    rows: int,
    gates: int,
    split: int,
)
    requires
        step_ok(tiers, pure_tier, st, c, cols, rows, gates, split),
    ensures
        apart(place(tiers, pure_tier, st, c), split),
{
    let k = key_of(c);
    let next = place(tiers, pure_tier, st, c);
    let (row, a, b) = run(tiers, pure_tier, st, c);
    lemma_ready_waiting(st.queues, 0);
    lemma_step_wrote(tiers, pure_tier, st, c, cols, rows, gates, split);
    lemma_step_queued(tiers, pure_tier, st, c, cols, rows, gates, split);
    assert(st.row <= next.row);
    assert forall|x: Key, y: Key|
        #![trigger next.partial.dom().contains(x), next.partial.dom().contains(y)]
        next.partial.dom().contains(x) && next.partial.dom().contains(y) && x != y
            && next.partial[x].row == next.partial[y].row implies bank_of(
        next.partial[x].next as int,
        split,
    ) != bank_of(next.partial[y].next as int, split) by {
        lemma_step_partial(tiers, pure_tier, st, c, cols, rows, gates, split, x);
        lemma_step_partial(tiers, pure_tier, st, c, cols, rows, gates, split, y);
    }
    assert forall|i: int, j: int|
        0 <= i < next.half.len() && 0 <= j < next.half.len() && i != j implies (
    #[trigger] next.half[i]).row != (#[trigger] next.half[j]).row by {
        if st.partial.dom().contains(k) {
            assert(st.half[i].row != st.half[j].row);
        } else if st.half.len() > 0 {
            assert(next.half[i] == st.half[i + 1]);
            assert(next.half[j] == st.half[j + 1]);
            assert(st.half[i + 1].row != st.half[j + 1].row);
        }
    }
    assert forall|x: Key, i: int|
        #![trigger next.partial.dom().contains(x), next.half[i]]
        next.partial.dom().contains(x) && 0 <= i < next.half.len() && next.partial[x].row
            == next.half[i].row implies next.partial[x].next < split by {
        lemma_step_partial(tiers, pure_tier, st, c, cols, rows, gates, split, x);
        lemma_step_half(tiers, pure_tier, st, c, cols, rows, gates, split, i);
        if x != k {
            if next.half[i].row == row {
                assert(bank_of(a, split) == 0);
                assert(st.partial[x].row == row);
                assert(bank_of(st.partial[x].next as int, split) == 1);
                if st.partial.dom().contains(k) {
                    let j = choose|j: int| 0 <= j < st.half.len() && st.half[j] == next.half[i];
                    assert(st.partial[x].next < split);
                } else if exists|j: int|
                    0 <= j < st.half.len() && #[trigger] st.half[j] == next.half[i] {
                    let j = choose|j: int|
                        0 <= j < st.half.len() && #[trigger] st.half[j] == next.half[i];
                    assert(st.partial[x].next < split);
                } else {
                    assert(st.partial[x].row < st.row);
                    assert(!queued(st, st.partial[x].row as int));
                    if st.half.len() == 0 {
                        match ready_from(st.queues, 0) {
                            Some(t) => {
                                assert(st.queues[t][0] == row);
                            },
                            None => {},
                        }
                    } else {
                        assert(st.half[0].row == row);
                        assert(st.partial[x].next < split);
                    }
                }
            } else {
                let j = choose|j: int|
                    0 <= j < st.half.len() && #[trigger] st.half[j] == next.half[i];
                assert(st.partial[x].next < split);
            }
        }
    }
    assert forall|i: int| 0 <= i < next.half.len() implies split <= (#[trigger] next.half[i]).next
        && !queued(next, next.half[i].row as int) && next.half[i].row < next.row by {
        lemma_step_half(tiers, pure_tier, st, c, cols, rows, gates, split, i);
    }
    assert forall|x: Key| #[trigger] next.partial.dom().contains(x) implies !queued(
        next,
        next.partial[x].row as int,
    ) && next.partial[x].row < next.row && (next.partial[x].next < split ==> next.partial[x].end
        <= split) && bank_carries(
        next,
        next.partial[x].row as int,
        bank_of(next.partial[x].next as int, split),
        x,
    ) by {
        lemma_step_partial(tiers, pure_tier, st, c, cols, rows, gates, split, x);
        if x == k {
            lemma_wrote_bank(
                st,
                next,
                cols,
                rows,
                row,
                a,
                b,
                split,
                c,
                row,
                bank_of(a, split),
                k,
            );
            if st.partial.dom().contains(k) {
                assert(st.partial[k].row < st.row);
            } else if st.half.len() > 0 {
                assert(st.half[0].row < st.row);
            } else {
                match ready_from(st.queues, 0) {
                    Some(t) => {
                        assert(st.queues[t][0] < st.row);
                    },
                    None => {},
                }
            }
        } else {
            assert(st.partial.dom().contains(x));
            assert(slots_fit(st.partial[x], rows, gates));
            lemma_wrote_bank(
                st,
                next,
                cols,
                rows,
                row,
                a,
                b,
                split,
                c,
                st.partial[x].row as int,
                bank_of(st.partial[x].next as int, split),
                x,
            );
        }
    }
}

/// A step keeps settled gates settled, and settles whichever gate it places into.
proof fn lemma_step_settled(
    tiers: Seq<Tier>,
    pure_tier: Tier,
    st: Placing,
    c: PlonkConstraint,
    cols: int,
    rows: int,
    gates: int,
    split: int,
    r: int,
    g: int,
)
    requires
        step_ok(tiers, pure_tier, st, c, cols, rows, gates, split),
        ({
            let (row, a, b) = run(tiers, pure_tier, st, c);
            settled(st, r, g, split) || (r == row && g == a)
        }),
        0 <= r,
    ensures
        settled(place(tiers, pure_tier, st, c), r, g, split),
        ({
            let (row, a, b) = run(tiers, pure_tier, st, c);
            settled(st, r, g, split) && r == row ==> bank_of(g, split) != bank_of(a, split) || (g
                < a && st.partial.dom().contains(key_of(c)))
        }),
{
    let k = key_of(c);
    let next = place(tiers, pure_tier, st, c);
    let (row, a, b) = run(tiers, pure_tier, st, c);
    lemma_ready_waiting(st.queues, 0);
    lemma_step_wrote(tiers, pure_tier, st, c, cols, rows, gates, split);
    lemma_step_queued(tiers, pure_tier, st, c, cols, rows, gates, split);
    if settled(st, r, g, split) && r == row {
        if st.partial.dom().contains(k) {
            assert(st.partial[k].row == row);
        } else if st.half.len() > 0 {
            assert(st.half[0].row == row);
            assert(split <= st.half[0].next);
        } else {
            match ready_from(st.queues, 0) {
                Some(t) => {
                    assert(st.queues[t][0] == row);
                    assert(queued(st, row));
                },
                None => {},
            }
        }
    }
    assert(r < next.row) by {
        if r == row && g == a && !settled(st, r, g, split) {
            if st.partial.dom().contains(k) {
                assert(st.partial[k].row < st.row);
            } else if st.half.len() > 0 {
                assert(st.half[0].row < st.row);
            } else {
                match ready_from(st.queues, 0) {
                    Some(t) => {
                        assert(st.queues[t][0] < st.row);
                    },
                    None => {},
                }
            }
        }
    }
    assert forall|l: Key| #[trigger]
        next.partial.dom().contains(l) && next.partial[l].row == r && bank_of(
            next.partial[l].next as int,
            split,
        ) == bank_of(g, split) implies g < next.partial[l].next by {
        lemma_step_partial(tiers, pure_tier, st, c, cols, rows, gates, split, l);
    }
    assert forall|i: int| 0 <= i < next.half.len() && (#[trigger] next.half[i]).row
        == r implies g < split by {
        lemma_step_half(tiers, pure_tier, st, c, cols, rows, gates, split, i);
        if r == row && g == a {
            assert(bank_of(a, split) == 0);
        } else if exists|j: int| 0 <= j < st.half.len() && #[trigger] st.half[j] == next.half[i] {
            let j = choose|j: int| 0 <= j < st.half.len() && #[trigger] st.half[j] == next.half[i];
            assert(st.half[j].row == r);
        } else {
            assert(settled(st, r, g, split));
            assert(r == row);
            assert(bank_of(g, split) != bank_of(a, split));
            assert(!st.partial.dom().contains(k));
            if st.half.len() > 0 {
                assert(st.half[0].row == row);
                assert(g < split);
            } else {
                match ready_from(st.queues, 0) {
                    Some(t) => {
                        assert(st.queues[t][0] == row);
                        assert(queued(st, row));
                    },
                    None => {},
                }
            }
        }
    }
}

/// One step of the invariant.
proof fn lemma_step(
    tiers: Seq<Tier>,
    pure_tier: Tier,
    st: Placing,
    cs: Seq<PlonkConstraint>,
    n: int,
    cols: int,
    rows: int,
    gates: int,
    split: int,
    at: Seq<(int, int)>,
    opened: Set<(int, int)>,
)
    requires
        0 <= n < cs.len(),
        step_ok(tiers, pure_tier, st, cs[n], cols, rows, gates, split),
        all_placed(st, split, gates, cs, n, at),
        all_hold(st, split, gates, cs, n, opened),
        st.row <= rows,
    ensures
        ({
            let next = place(tiers, pure_tier, st, cs[n]);
            let (row, a, b) = run(tiers, pure_tier, st, cs[n]);
            &&& all_placed(next, split, gates, cs, n + 1, at.push((row, a)))
            &&& all_hold(
                next,
                split,
                gates,
                cs,
                n + 1,
                opened.union(newly_opened(tiers, pure_tier, st, cs[n])),
            )
        }),
{
    let c = cs[n];
    let k = key_of(c);
    let next = place(tiers, pure_tier, st, c);
    let (row, a, b) = run(tiers, pure_tier, st, c);
    let at2 = at.push((row, a));
    let new = newly_opened(tiers, pure_tier, st, c);
    let opened2 = opened.union(new);
    lemma_ready_waiting(st.queues, 0);
    lemma_step_wrote(tiers, pure_tier, st, c, cols, rows, gates, split);
    lemma_step_queued(tiers, pure_tier, st, c, cols, rows, gates, split);
    assert(0 <= row < next.row) by {
        lemma_step_settled(tiers, pure_tier, st, c, cols, rows, gates, split, row, a);
    }
    assert forall|i: int| 0 <= i < n + 1 implies {
        &&& 0 <= (#[trigger] at2[i]).0
        &&& 0 <= at2[i].1 < gates
        &&& settled(next, at2[i].0, at2[i].1, split)
        &&& slot_holds(next, at2[i].0, at2[i].1, split, cs[i])
    } by {
        let r = at2[i].0;
        let g = at2[i].1;
        if i < n {
            assert(at2[i] == at[i]);
            lemma_step_settled(tiers, pure_tier, st, c, cols, rows, gates, split, r, g);
            lemma_wrote(st, next, cols, rows, gates, row, a, b, split, c, r, g, cs[i]);
            if r == row && bank_of(g, split) == bank_of(a, split) {
                lemma_same_bank(st, row, bank_of(a, split), k, key_of(cs[i]));
            }
        } else {
            lemma_step_settled(tiers, pure_tier, st, c, cols, rows, gates, split, row, a);
            lemma_wrote(st, next, cols, rows, gates, row, a, b, split, c, row, a, c);
        }
    }
    assert forall|x: (int, int)| #[trigger] opened2.contains(x) implies {
        &&& 0 <= x.0 < next.row
        &&& 0 <= x.1 < gates
        &&& !queued(next, x.0)
        &&& exists|j: int| 0 <= j < n + 1 && slot_holds(next, x.0, x.1, split, #[trigger] cs[j])
    } by {
        if x.0 == row && a <= x.1 < b {
            lemma_wrote(st, next, cols, rows, gates, row, a, b, split, c, x.0, x.1, c);
            assert(slot_holds(next, x.0, x.1, split, cs[n]));
        } else {
            assert(opened.contains(x)) by {
                if new.contains(x) {
                    assert(x.0 == row && a <= x.1 < b);
                }
            }
            let j = choose|j: int|
                0 <= j < n && slot_holds(st, x.0, x.1, split, #[trigger] cs[j]);
            lemma_wrote(st, next, cols, rows, gates, row, a, b, split, c, x.0, x.1, cs[j]);
            if x.0 == row && bank_of(x.1, split) == bank_of(a, split) {
                if st.partial.dom().contains(k) {
                    lemma_same_bank(st, row, bank_of(a, split), k, key_of(cs[j]));
                } else if st.half.len() > 0 {
                    assert(st.half[0].row == row);
                    assert(x.1 < split);
                    assert(split <= st.half[0].next);
                } else {
                    match ready_from(st.queues, 0) {
                        Some(t) => {
                            assert(st.queues[t][0] == row);
                            assert(queued(st, row));
                        },
                        None => {},
                    }
                }
            }
            assert(slot_holds(next, x.0, x.1, split, cs[j]));
        }
    }
    assert forall|x: (int, int), i: int|
        #![trigger opened2.contains(x), next.half[i]]
        opened2.contains(x) && 0 <= i < next.half.len() && next.half[i].row == x.0 implies x.1
        < split by {
        lemma_step_half(tiers, pure_tier, st, c, cols, rows, gates, split, i);
        if x.0 == row && a <= x.1 < b {
            assert(bank_of(a, split) == 0);
        } else {
            assert(opened.contains(x)) by {
                if new.contains(x) {
                    assert(x.0 == row && a <= x.1 < b);
                }
            }
            if exists|j: int| 0 <= j < st.half.len() && #[trigger] st.half[j] == next.half[i] {
                let j = choose|j: int|
                    0 <= j < st.half.len() && #[trigger] st.half[j] == next.half[i];
                assert(x.1 < split);
            } else {
                assert(x.0 == row);
                if st.half.len() > 0 {
                    assert(st.half[0].row == row);
                    assert(x.1 < split);
                } else {
                    match ready_from(st.queues, 0) {
                        Some(t) => {
                            assert(st.queues[t][0] == row);
                            assert(queued(st, row));
                        },
                        None => {},
                    }
                }
            }
        }
    }
}

proof fn lemma_same_bank(st: Placing, row: int, bank: int, k: Key, l: Key)
    requires
        bank_carries(st, row, bank, k),
        bank_carries(st, row, bank, l),
    ensures
        k == l,
{
}

/// A placement may start from this state: nothing is open, each waiting row is a row that exists
/// and waits once, and the tables have room for the rows to come.
pub open spec fn may_start(
    tiers: Seq<Tier>,
    pure_tier: Tier,
    st: Placing,
    cs: Seq<PlonkConstraint>,
    cols: int,
    rows: int,
    gates: int,
    split: int,
) -> bool {
    &&& fits(st, cols, rows, gates)
    &&& st.partial == Map::<Key, Slots>::empty()
    &&& st.half.len() == 0
    &&& st.queues.len() == tiers.len()
    &&& queues_distinct(st.queues)
    &&& forall|i: int, j: int|
        0 <= i < st.queues.len() && 0 <= j < st.queues[i].len() ==> #[trigger] st.queues[i][j]
            < st.row
    &&& forall|i: int|
        0 <= i < tiers.len() ==> tier_fits(#[trigger] tiers[i], gates) && tier_splits(
            tiers[i],
            split,
        )
    &&& tier_fits(pure_tier, gates)
    &&& tier_splits(pure_tier, split)
    &&& place_all(tiers, pure_tier, st, cs, cs.len()).row <= rows <= usize::MAX
}

proof fn lemma_rows_only_grow(
    tiers: Seq<Tier>,
    pure_tier: Tier,
    st: Placing,
    cs: Seq<PlonkConstraint>,
    i: nat,
    n: nat,
)
    requires
        i <= n,
    ensures
        place_all(tiers, pure_tier, st, cs, i).row <= place_all(tiers, pure_tier, st, cs, n).row,
    decreases n,
{
    if i < n {
        lemma_rows_only_grow(tiers, pure_tier, st, cs, i, (n - 1) as nat);
    }
}

/// The invariant after the first `n` constraints.
proof fn lemma_placed(
    tiers: Seq<Tier>,
    pure_tier: Tier,
    st: Placing,
    cs: Seq<PlonkConstraint>,
    n: nat,
    cols: int,
    rows: int,
    gates: int,
    split: int,
) -> (at: Seq<(int, int)>)
    requires
        may_start(tiers, pure_tier, st, cs, cols, rows, gates, split),
        n <= cs.len(),
    ensures
        ({
            let end = place_all(tiers, pure_tier, st, cs, n);
            &&& fits(end, cols, rows, gates)
            &&& end.queues.len() == tiers.len()
            &&& apart(end, split)
            &&& all_placed(end, split, gates, cs, n as int, at)
            &&& all_hold(
                end,
                split,
                gates,
                cs,
                n as int,
                opened_gates(tiers, pure_tier, st, cs, n),
            )
        }),
    decreases n,
{
    if n == 0 {
        Seq::empty()
    } else {
        let m = (n - 1) as nat;
        let at = lemma_placed(tiers, pure_tier, st, cs, m, cols, rows, gates, split);
        let mid = place_all(tiers, pure_tier, st, cs, m);
        let c = cs[n - 1];
        lemma_rows_only_grow(tiers, pure_tier, st, cs, n, cs.len());
        lemma_rows_only_grow(tiers, pure_tier, st, cs, m, cs.len());
        assert(step_ok(tiers, pure_tier, mid, c, cols, rows, gates, split));
        lemma_place_fits(tiers, pure_tier, mid, c, cols, rows, gates);
        lemma_ready_waiting(mid.queues, 0);
        lemma_step_apart(tiers, pure_tier, mid, c, cols, rows, gates, split);
        lemma_step(
            tiers,
            pure_tier,
            mid,
            cs,
            m as int,
            cols,
            rows,
            gates,
            split,
            at,
            opened_gates(tiers, pure_tier, st, cs, m),
        );
        let (row, a, b) = run(tiers, pure_tier, mid, c);
        at.push((row, a))
    }
}

/// Every constraint is placed: some gate of some row holds its signals, in a bank that carries
/// its coefficients.
pub proof fn law_every_constraint_placed(
    tiers: Seq<Tier>,
    pure_tier: Tier,
    st: Placing,
    cs: Seq<PlonkConstraint>,
    cols: int,
    rows: int,
    gates: int,
    split: int,
    i: int,
)
    requires
        may_start(tiers, pure_tier, st, cs, cols, rows, gates, split),
        0 <= i < cs.len(),
    ensures
        exists|row: int, gate: int|
            0 <= row < place_all(tiers, pure_tier, st, cs, cs.len()).row && 0 <= gate < gates
                && #[trigger] slot_holds(
                place_all(tiers, pure_tier, st, cs, cs.len()),
                row,
                gate,
                split,
                cs[i],
            ),
{
    let at = lemma_placed(tiers, pure_tier, st, cs, cs.len(), cols, rows, gates, split);
    let end = place_all(tiers, pure_tier, st, cs, cs.len());
    assert(slot_holds(end, at[i].0, at[i].1, split, cs[i]));
}

/// A placement keeps its tables.
pub proof fn lemma_placed_tables(
    tiers: Seq<Tier>,
    pure_tier: Tier,
    st: Placing,
    cs: Seq<PlonkConstraint>,
    cols: int,
    rows: int,
    gates: int,
    split: int,
)
    requires
        may_start(tiers, pure_tier, st, cs, cols, rows, gates, split),
    ensures
        is_table(place_all(tiers, pure_tier, st, cs, cs.len()).cells, cols, rows),
        is_table(place_all(tiers, pure_tier, st, cs, cs.len()).coefs, 10, rows),
{
    let at = lemma_placed(tiers, pure_tier, st, cs, cs.len(), cols, rows, gates, split);
}

/// Nothing but constraints is placed: every gate that was opened holds one of them.
pub proof fn law_every_open_gate_holds(
    tiers: Seq<Tier>,
    pure_tier: Tier,
    st: Placing,
    cs: Seq<PlonkConstraint>,
    cols: int,
    rows: int,
    gates: int,
    split: int,
    row: int,
    gate: int,
)
    requires
        may_start(tiers, pure_tier, st, cs, cols, rows, gates, split),
        opened_gates(tiers, pure_tier, st, cs, cs.len()).contains((row, gate)),
    ensures
        exists|j: int|
            0 <= j < cs.len() && slot_holds(
                place_all(tiers, pure_tier, st, cs, cs.len()),
                row,
                gate,
                split,
                #[trigger] cs[j],
            ),
{
    let at = lemma_placed(tiers, pure_tier, st, cs, cs.len(), cols, rows, gates, split);
    let opened = opened_gates(tiers, pure_tier, st, cs, cs.len());
    assert(opened.contains((row, gate)));
}

/// The column belongs to a gate that the tier may open.
pub open spec fn tier_covers(t: Tier, col: int) -> bool {
    3 * t.first <= col < 3 * t.end || 3 * t.half_first <= col < 3 * t.half_end
}

/// No tier that the row waits in may open a gate at the column.
pub open spec fn out_of_reach(tiers: Seq<Tier>, queues: Seq<Seq<usize>>, col: int, row: int) -> bool {
    forall|i: int, j: int|
        0 <= i < queues.len() && 0 <= j < queues[i].len() && #[trigger] queues[i][j] == row
            ==> !tier_covers(tiers[i], col)
}

/// The run lies where its tier allows, or in a row of its own.
spec fn run_allowed(tiers: Seq<Tier>, st0: Placing, s: Slots) -> bool {
    s.row >= st0.row || forall|col: int|
        3 * s.next <= col < 3 * s.end ==> !(#[trigger] out_of_reach(
            tiers,
            st0.queues,
            col,
            s.row as int,
        ))
}

/// What a placement has not touched so far.
spec fn kept(tiers: Seq<Tier>, st0: Placing, st: Placing, cols: int) -> bool {
    &&& forall|k: Key| #[trigger]
        st.partial.dom().contains(k) ==> run_allowed(tiers, st0, st.partial[k])
    &&& forall|i: int| 0 <= i < st.half.len() ==> run_allowed(tiers, st0, #[trigger] st.half[i])
    &&& forall|i: int, j: int|
        0 <= i < st.queues.len() && 0 <= j < st.queues[i].len() ==> st0.queues[i].contains(
            #[trigger] st.queues[i][j],
        )
    &&& st.row >= st0.row
    &&& forall|col: int, row: int|
        0 <= col < cols && 0 <= row < st0.row && #[trigger] out_of_reach(
            tiers,
            st0.queues,
            col,
            row,
        ) ==> st.cells[col][row] == st0.cells[col][row]
}

/// A column inside a run is out of reach of no placement that starts from the run's row.
proof fn lemma_covered(tiers: Seq<Tier>, st0: Placing, i: int, row: usize, col: int)
    requires
        0 <= i < st0.queues.len(),
        st0.queues[i].contains(row),
        tier_covers(tiers[i], col),
    ensures
        !out_of_reach(tiers, st0.queues, col, row as int),
{
    let j = st0.queues[i].index_of(row);
    assert(st0.queues[i][j] == row);
}

proof fn lemma_step_kept(
    tiers: Seq<Tier>,
    pure_tier: Tier,
    st0: Placing,
    st: Placing,
    c: PlonkConstraint,
    cols: int,
    rows: int,
    gates: int,
    split: int,
)
    requires
        step_ok(tiers, pure_tier, st, c, cols, rows, gates, split),
        st0.queues.len() == tiers.len(),
        st0.row <= rows,
        kept(tiers, st0, st, cols),
    ensures
        kept(tiers, st0, place(tiers, pure_tier, st, c), cols),
{
    let k = key_of(c);
    let next = place(tiers, pure_tier, st, c);
    let (row, a, b) = run(tiers, pure_tier, st, c);
    lemma_ready_waiting(st.queues, 0);
    lemma_step_wrote(tiers, pure_tier, st, c, cols, rows, gates, split);
    let written = Slots { row: row as usize, next: a as usize, end: b as usize };
    assert(run_allowed(tiers, st0, written)) by {
        if st.partial.dom().contains(k) {
            let s = st.partial[k];
            assert(slots_fit(s, rows, gates));
            assert(run_allowed(tiers, st0, s));
        } else if st.half.len() > 0 {
            assert(run_allowed(tiers, st0, st.half[0]));
        } else {
            match ready_from(st.queues, 0) {
                Some(i) => {
                    assert(st0.queues[i].contains(st.queues[i][0]));
                    assert forall|col: int| 3 * a <= col < 3 * b implies !(
                    #[trigger] out_of_reach(tiers, st0.queues, col, row)) by {
                        lemma_covered(tiers, st0, i, st.queues[i][0], col);
                    }
                },
                None => {},
            }
        }
    }
    assert forall|l: Key| #[trigger] next.partial.dom().contains(l) implies run_allowed(
        tiers,
        st0,
        next.partial[l],
    ) by {
        lemma_step_partial(tiers, pure_tier, st, c, cols, rows, gates, split, l);
        if l == k {
            let s = next.partial[k];
            if st.partial.dom().contains(k) {
                let old_run = st.partial[k];
                assert(run_allowed(tiers, st0, old_run));
                assert(s.row == old_run.row && old_run.next <= s.next && s.end == old_run.end);
            } else {
                assert(s.row == written.row && written.next <= s.next && s.end == written.end);
            }
        }
    }
    assert forall|i: int| 0 <= i < next.half.len() implies run_allowed(
        tiers,
        st0,
        #[trigger] next.half[i],
    ) by {
        if st.partial.dom().contains(k) {
            assert(next.half[i] == st.half[i]);
        } else if st.half.len() > 0 {
            assert(next.half[i] == st.half[i + 1]);
        } else {
            match ready_from(st.queues, 0) {
                Some(t) => {
                    assert(st0.queues[t].contains(st.queues[t][0]));
                    let s = next.half[i];
                    assert forall|col: int| 3 * s.next <= col < 3 * s.end implies !(
                    #[trigger] out_of_reach(tiers, st0.queues, col, row)) by {
                        lemma_covered(tiers, st0, t, st.queues[t][0], col);
                    }
                },
                None => {},
            }
        }
    }
    assert forall|i: int, j: int|
        0 <= i < next.queues.len() && 0 <= j < next.queues[i].len() implies st0.queues[i].contains(
        #[trigger] next.queues[i][j],
    ) by {
        if !st.partial.dom().contains(k) && st.half.len() == 0 && ready_from(st.queues, 0) == Some(
            i,
        ) {
            assert(next.queues[i][j] == st.queues[i][j + 1]);
        } else {
            assert(next.queues[i][j] == st.queues[i][j]);
        }
    }
    assert forall|col: int, r: int|
        0 <= col < cols && 0 <= r < st0.row && #[trigger] out_of_reach(
            tiers,
            st0.queues,
            col,
            r,
        ) implies next.cells[col][r] == st0.cells[col][r] by {
        let g = col / 3;
        let o = col % 3;
        assert(col == 3 * g + o && 0 <= o < 3);
        assert(next.cells[3 * g + o][r] == next.cells[col][r]);
        assert(st.cells[col][r] == st0.cells[col][r]);
        if r == row && a <= g < b {
            assert(3 * written.next <= col < 3 * written.end);
        }
    }
}

proof fn lemma_all_kept(
    tiers: Seq<Tier>,
    pure_tier: Tier,
    st: Placing,
    cs: Seq<PlonkConstraint>,
    n: nat,
    cols: int,
    rows: int,
    gates: int,
    split: int,
)
    requires
        may_start(tiers, pure_tier, st, cs, cols, rows, gates, split),
        n <= cs.len(),
    ensures
        kept(tiers, st, place_all(tiers, pure_tier, st, cs, n), cols),
    decreases n,
{
    if n == 0 {
        assert forall|i: int, j: int|
            0 <= i < st.queues.len() && 0 <= j < st.queues[i].len() implies st.queues[i].contains(
            #[trigger] st.queues[i][j],
        ) by {}
    } else {
        let m = (n - 1) as nat;
        lemma_all_kept(tiers, pure_tier, st, cs, m, cols, rows, gates, split);
        let at = lemma_placed(tiers, pure_tier, st, cs, m, cols, rows, gates, split);
        lemma_rows_only_grow(tiers, pure_tier, st, cs, n, cs.len());
        lemma_rows_only_grow(tiers, pure_tier, st, cs, 0, cs.len());
        lemma_step_kept(
            tiers,
            pure_tier,
            st,
            place_all(tiers, pure_tier, st, cs, m),
            cs[n - 1],
            cols,
            rows,
            gates,
            split,
        );
    }
}

/// Cells of custom gates stay: a cell of a row that exists before the placement keeps its signal
/// unless the row waits in a tier that may open a gate there.
pub proof fn law_custom_cells_stay(
    tiers: Seq<Tier>,
    pure_tier: Tier,
    st: Placing,
    cs: Seq<PlonkConstraint>,
    cols: int,
    rows: int,
    gates: int,
    split: int,
    col: int,
    row: int,
)
    requires
        may_start(tiers, pure_tier, st, cs, cols, rows, gates, split),
        0 <= col < cols,
        0 <= row < st.row,
        out_of_reach(tiers, st.queues, col, row),
    ensures
        place_all(tiers, pure_tier, st, cs, cs.len()).cells[col][row] == st.cells[col][row],
{
    lemma_all_kept(tiers, pure_tier, st, cs, cs.len(), cols, rows, gates, split);
}

/// The row waits in no tier.
pub open spec fn is_idle(queues: Seq<Seq<usize>>, row: int) -> bool {
    forall|i: int, j: int|
        0 <= i < queues.len() && 0 <= j < queues[i].len() ==> #[trigger] queues[i][j] != row
}

proof fn lemma_bank_elsewhere(
    coefs: Seq<Seq<u64>>,
    rows: int,
    bank: int,
    at: int,
    c: PlonkConstraint,
    k: int,
    row: int,
)
    requires
        is_table(coefs, 10, rows),
        0 <= bank < 2,
        0 <= at < rows,
        0 <= k < 10,
        0 <= row < rows,
        row != at,
    ensures
        with_bank(coefs, bank, at, c)[k][row] == coefs[k][row],
{
}

/// Coefficients of rows without gates stay: a row that exists before the placement and waits in no
/// tier keeps its coefficients.
pub proof fn law_idle_coefs_stay(
    tiers: Seq<Tier>,
    pure_tier: Tier,
    st: Placing,
    cs: Seq<PlonkConstraint>,
    n: nat,
    cols: int,
    rows: int,
    gates: int,
    split: int,
    k: int,
    row: int,
)
    requires
        may_start(tiers, pure_tier, st, cs, cols, rows, gates, split),
        n <= cs.len(),
        0 <= k < 10,
        0 <= row < st.row,
        is_idle(st.queues, row),
    ensures
        place_all(tiers, pure_tier, st, cs, n).coefs[k][row] == st.coefs[k][row],
    decreases n,
{
    if n > 0 {
        let m = (n - 1) as nat;
        law_idle_coefs_stay(
            tiers,
            pure_tier,
            st,
            cs,
            m,
            cols,
            rows,
            gates,
            split,
            k,
            row,
        );
        lemma_all_kept(tiers, pure_tier, st, cs, m, cols, rows, gates, split);
        let at = lemma_placed(tiers, pure_tier, st, cs, m, cols, rows, gates, split);
        lemma_rows_only_grow(tiers, pure_tier, st, cs, n, cs.len());
        lemma_rows_only_grow(tiers, pure_tier, st, cs, 0, cs.len());
        let mid = place_all(tiers, pure_tier, st, cs, m);
        let c = cs[n - 1];
        lemma_ready_waiting(mid.queues, 0);
        if mid.partial.dom().contains(key_of(c)) {
        } else if mid.half.len() > 0 {
            let s = mid.half[0];
            assert(slots_fit(s, rows, gates));
            assert(run_allowed(tiers, st, s));
            if s.row == row {
                assert(!out_of_reach(tiers, st.queues, 3 * s.next as int, s.row as int));
            }
            lemma_bank_elsewhere(mid.coefs, rows, 1, s.row as int, c, k, row);
        } else {
            match ready_from(mid.queues, 0) {
                Some(i) => {
                    let r = mid.queues[i][0];
                    assert(st.queues[i].contains(r));
                    assert(tier_fits(tiers[i], gates));
                    lemma_bank_elsewhere(
                        mid.coefs,
                        rows,
                        tiers[i].bank as int,
                        r as int,
                        c,
                        k,
                        row,
                    );
                },
                None => {
                    lemma_bank_elsewhere(
                        mid.coefs,
                        rows,
                        pure_tier.bank as int,
                        mid.row as int,
                        c,
                        k,
                        row,
                    );
                },
            }
        }
    }
}

} // verus!
