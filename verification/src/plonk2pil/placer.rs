//! Running a placement: counting the rows it will take, and filling the tables.
use vstd::prelude::*;

use crate::plonk2pil::grid::{grid, is_table, set_cell, with_cell};
use crate::plonk2pil::open_gates::OpenGates;
use crate::plonk2pil::placement::{
    key_of, law_rows_counted, lemma_rows_grow, open_row, own_rows, place, place_all, place_shape,
    ready_from, shape_all, waiting_from, waiting_of, with_bank, with_gate, with_gates, Key, Placing,
    Shape, Slots, Tier,
};
use crate::plonk2pil::to_plonk::PlonkConstraint;

verus! {

/// The coefficients of a constraint.
fn gate_key(c: &PlonkConstraint) -> (k: Key)
    ensures
        k == key_of(*c),
{
    (c[3], c[4], c[5], c[6], c[7])
}

/// The number of coefficient columns: two banks of five.
pub const N_COEFS: usize = 10;

pub open spec fn slots_fit(s: Slots, rows: int, gates: int) -> bool {
    s.row < rows && s.next < s.end <= gates
}

/// The tier stays within the banks and within `gates` gates.
pub open spec fn tier_fits(t: Tier, gates: int) -> bool {
    t.bank < 2 && t.first < t.end <= gates && t.half_end <= gates
}

/// Every run and every row of the placement lies inside the tables.
pub open spec fn fits(st: Placing, cols: int, rows: int, gates: int) -> bool {
    &&& is_table(st.cells, cols, rows)
    &&& is_table(st.coefs, 10, rows)
    &&& 0 <= 3 * gates <= cols
    &&& forall|k: Key| #[trigger]
        st.partial.dom().contains(k) ==> slots_fit(st.partial[k], rows, gates)
    &&& forall|i: int| 0 <= i < st.half.len() ==> slots_fit(#[trigger] st.half[i], rows, gates)
    &&& forall|i: int, j: int|
        0 <= i < st.queues.len() && 0 <= j < st.queues[i].len() ==> #[trigger] st.queues[i][j]
            < rows
}

pub proof fn lemma_table_cell<T>(g: Seq<Seq<T>>, cols: int, rows: int, c: int, r: int, v: T)
    requires
        is_table(g, cols, rows),
        0 <= c < cols,
        0 <= r < rows,
    ensures
        is_table(with_cell(g, c, r, v), cols, rows),
{
    let h = with_cell(g, c, r, v);
    assert forall|x: int| 0 <= x < cols implies (#[trigger] h[x]).len() == rows by {
        assert(g[x].len() == rows);
    }
}

pub proof fn lemma_gate_table(
    cells: Seq<Seq<u32>>,
    cols: int,
    rows: int,
    gate: int,
    row: int,
    c: PlonkConstraint,
)
    requires
        is_table(cells, cols, rows),
        0 <= gate,
        3 * gate + 2 < cols,
        0 <= row < rows,
    ensures
        is_table(with_gate(cells, gate, row, c), cols, rows),
{
    lemma_table_cell(cells, cols, rows, 3 * gate, row, c[0] as u32);
    let a = with_cell(cells, 3 * gate, row, c[0] as u32);
    lemma_table_cell(a, cols, rows, 3 * gate + 1, row, c[1] as u32);
    let b = with_cell(a, 3 * gate + 1, row, c[1] as u32);
    lemma_table_cell(b, cols, rows, 3 * gate + 2, row, c[2] as u32);
}

pub proof fn lemma_gates_table(
    cells: Seq<Seq<u32>>,
    cols: int,
    rows: int,
    a: int,
    b: int,
    row: int,
    c: PlonkConstraint,
)
    requires
        is_table(cells, cols, rows),
        0 <= a,
        3 * b <= cols,
        0 <= row < rows,
    ensures
        is_table(with_gates(cells, a, b, row, c), cols, rows),
    decreases b - a,
{
    if a < b {
        lemma_gates_table(cells, cols, rows, a, b - 1, row, c);
        lemma_gate_table(with_gates(cells, a, b - 1, row, c), cols, rows, b - 1, row, c);
    }
}

pub proof fn lemma_bank_table(
    coefs: Seq<Seq<u64>>,
    rows: int,
    bank: int,
    row: int,
    c: PlonkConstraint,
)
    requires
        is_table(coefs, 10, rows),
        0 <= bank < 2,
        0 <= row < rows,
    ensures
        is_table(with_bank(coefs, bank, row, c), 10, rows),
{
    let f = 5 * bank;
    lemma_table_cell(coefs, 10, rows, f, row, c[3]);
    let a = with_cell(coefs, f, row, c[3]);
    lemma_table_cell(a, 10, rows, f + 1, row, c[4]);
    let b = with_cell(a, f + 1, row, c[4]);
    lemma_table_cell(b, 10, rows, f + 2, row, c[5]);
    let d = with_cell(b, f + 2, row, c[5]);
    lemma_table_cell(d, 10, rows, f + 3, row, c[6]);
    let e = with_cell(d, f + 3, row, c[6]);
    lemma_table_cell(e, 10, rows, f + 4, row, c[7]);
}

/// Placing keeps everything inside the tables.
pub proof fn lemma_place_fits(
    tiers: Seq<Tier>,
    pure_tier: Tier,
    st: Placing,
    c: PlonkConstraint,
    cols: int,
    rows: int,
    gates: int,
)
    requires
        fits(st, cols, rows, gates),
        st.queues.len() == tiers.len(),
        forall|i: int| 0 <= i < tiers.len() ==> tier_fits(#[trigger] tiers[i], gates),
        tier_fits(pure_tier, gates),
        place(tiers, pure_tier, st, c).row <= rows <= usize::MAX,
    ensures
        fits(place(tiers, pure_tier, st, c), cols, rows, gates),
{
    let k = key_of(c);
    let next = place(tiers, pure_tier, st, c);
    if st.partial.dom().contains(k) {
        let s = st.partial[k];
        assert(slots_fit(s, rows, gates));
        lemma_gate_table(st.cells, cols, rows, s.next as int, s.row as int, c);
    } else if st.half.len() > 0 {
        let s = st.half[0];
        assert(slots_fit(s, rows, gates));
        lemma_gates_table(st.cells, cols, rows, s.next as int, s.end as int, s.row as int, c);
        lemma_bank_table(st.coefs, rows, 1, s.row as int, c);
        assert forall|i: int| 0 <= i < next.half.len() implies slots_fit(
            #[trigger] next.half[i],
            rows,
            gates,
        ) by {
            assert(next.half[i] == st.half[i + 1]);
        }
    } else {
        crate::plonk2pil::placement::lemma_ready_waiting(st.queues, 0);
        match ready_from(st.queues, 0) {
            Some(i) => {
                let t = tiers[i];
                let row = st.queues[i][0];
                assert(tier_fits(t, gates));
                assert(row < rows);
                lemma_gates_table(st.cells, cols, rows, t.first as int, t.end as int, row as int, c);
                lemma_bank_table(st.coefs, rows, t.bank as int, row as int, c);
                assert forall|x: int, y: int|
                    0 <= x < next.queues.len() && 0 <= y < next.queues[x].len() implies #[trigger] next.queues[x][y]
                    < rows by {
                    if x == i {
                        assert(next.queues[x][y] == st.queues[x][y + 1]);
                    } else {
                        assert(next.queues[x][y] == st.queues[x][y]);
                    }
                }
            },
            None => {
                let t = pure_tier;
                let row = st.row as usize;
                lemma_gates_table(st.cells, cols, rows, t.first as int, t.end as int, row as int, c);
                lemma_bank_table(st.coefs, rows, t.bank as int, row as int, c);
            },
        }
    }
}

/// A placement under way: the tables being filled, and what is open or waiting.
pub struct Placer {
    pub s_map: Vec<Vec<u32>>,
    pub cv: Vec<Vec<u64>>,
    pub partial: OpenGates,
    pub half: Vec<Slots>,
    pub queues: Vec<Vec<usize>>,
    pub row: usize,
}

impl Placer {
    /// The state of the placement.
    pub open spec fn state(&self) -> Placing {
        Placing {
            cells: grid(self.s_map@),
            coefs: grid(self.cv@),
            partial: self.partial@,
            half: self.half@,
            queues: grid(self.queues@),
            row: self.row as nat,
        }
    }
}

/// Set one gate of a row to a constraint's signals.
fn set_gate(s_map: &mut Vec<Vec<u32>>, gate: usize, row: usize, c: &PlonkConstraint)
    requires
        exists|cols: int, rows: int| #[trigger]
            is_table(grid(old(s_map)@), cols, rows) && 3 * gate + 2 < cols && row < rows,
    ensures
        grid(final(s_map)@) == with_gate(grid(old(s_map)@), gate as int, row as int, *c),
{
    let ghost (cols, rows) = choose|cols: int, rows: int| #[trigger]
        is_table(grid(s_map@), cols, rows) && 3 * gate + 2 < cols && row < rows;
    proof {
        lemma_grid_table(s_map@, cols, rows);
    }
    let n_cols: usize = s_map.len();
    assert(3 * gate + 2 < n_cols);
    set_cell(s_map, 3 * gate, row, c[0] as u32);
    proof {
        lemma_table_cell(grid(old(s_map)@), cols, rows, 3 * gate, row as int, c[0] as u32);
        lemma_grid_table(s_map@, cols, rows);
    }
    let ghost a = grid(s_map@);
    set_cell(s_map, 3 * gate + 1, row, c[1] as u32);
    proof {
        lemma_table_cell(a, cols, rows, 3 * gate + 1, row as int, c[1] as u32);
        lemma_grid_table(s_map@, cols, rows);
    }
    set_cell(s_map, 3 * gate + 2, row, c[2] as u32);
}

/// The columns of a table have the table's height.
pub proof fn lemma_grid_table<T>(m: Seq<Vec<T>>, cols: int, rows: int)
    requires
        is_table(grid(m), cols, rows),
    ensures
        m.len() == cols,
        forall|c: int| 0 <= c < cols ==> (#[trigger] m[c])@.len() == rows,
{
    assert forall|c: int| 0 <= c < cols implies (#[trigger] m[c])@.len() == rows by {
        assert(grid(m)[c].len() == rows);
    }
}

/// Set gates `a..b` of a row to a constraint's signals.
fn set_gates(
    s_map: &mut Vec<Vec<u32>>,
    a: usize,
    b: usize,
    row: usize,
    c: &PlonkConstraint,
    Ghost(cols): Ghost<int>,
    Ghost(rows): Ghost<int>,
)
    requires
        is_table(grid(old(s_map)@), cols, rows),
        a <= b,
        3 * b <= cols,
        row < rows,
    ensures
        grid(final(s_map)@) == with_gates(grid(old(s_map)@), a as int, b as int, row as int, *c),
{
    let mut g: usize = a;
    while g < b
        invariant
            a <= g <= b,
            3 * b <= cols,
            row < rows,
            is_table(grid(s_map@), cols, rows),
            grid(s_map@) == with_gates(grid(old(s_map)@), a as int, g as int, row as int, *c),
        decreases b - g,
    {
        let ghost before = grid(s_map@);
        proof {
            lemma_grid_table(s_map@, cols, rows);
            lemma_gate_table(before, cols, rows, g as int, row as int, *c);
        }
        set_gate(s_map, g, row, c);
        g = g + 1;
    }
}

/// Set one bank of a row to a constraint's coefficients.
fn set_bank(
    cv: &mut Vec<Vec<u64>>,
    bank: usize,
    row: usize,
    c: &PlonkConstraint,
    Ghost(rows): Ghost<int>,
)
    requires
        is_table(grid(old(cv)@), 10, rows),
        bank < 2,
        row < rows,
    ensures
        grid(final(cv)@) == with_bank(grid(old(cv)@), bank as int, row as int, *c),
{
    let f: usize = 5 * bank;
    proof {
        lemma_grid_table(cv@, 10, rows);
        lemma_table_cell(grid(cv@), 10, rows, f as int, row as int, c[3]);
    }
    set_cell(cv, f, row, c[3]);
    proof {
        lemma_grid_table(cv@, 10, rows);
        lemma_table_cell(grid(cv@), 10, rows, f + 1, row as int, c[4]);
    }
    set_cell(cv, f + 1, row, c[4]);
    proof {
        lemma_grid_table(cv@, 10, rows);
        lemma_table_cell(grid(cv@), 10, rows, f + 2, row as int, c[5]);
    }
    set_cell(cv, f + 2, row, c[5]);
    proof {
        lemma_grid_table(cv@, 10, rows);
        lemma_table_cell(grid(cv@), 10, rows, f + 3, row as int, c[6]);
    }
    set_cell(cv, f + 3, row, c[6]);
    proof {
        lemma_grid_table(cv@, 10, rows);
    }
    set_cell(cv, f + 4, row, c[7]);
}

impl Placer {
    /// Open a row for a constraint.
    fn open(
        &mut self,
        t: &Tier,
        row: usize,
        c: &PlonkConstraint,
        Ghost(cols): Ghost<int>,
        Ghost(rows): Ghost<int>,
        Ghost(gates): Ghost<int>,
    )
        requires
            fits(old(self).state(), cols, rows, gates),
            old(self).partial.wf(),
            tier_fits(*t, gates),
            row < rows <= usize::MAX,
        ensures
            final(self).partial.wf(),
            final(self).state() == open_row(old(self).state(), *t, row, *c),
    {
        let k: Key = gate_key(c);
        set_gates(&mut self.s_map, t.first, t.end, row, c, Ghost(cols), Ghost(rows));
        set_bank(&mut self.cv, t.bank, row, c, Ghost(rows));
        if t.first + 1 < t.end {
            self.partial.set(k, Slots { row, next: t.first + 1, end: t.end });
        }
        if t.half_first < t.half_end {
            self.half.push(Slots { row, next: t.half_first, end: t.half_end });
        }
    }

    /// The first tier with a row waiting.
    fn ready(&self) -> (r: Option<usize>)
        ensures
            match r {
                Some(i) => ready_from(self.state().queues, 0) == Some(i as int),
                None => ready_from(self.state().queues, 0) is None,
            },
    {
        let ghost q = grid(self.queues@);
        let mut i: usize = 0;
        while i < self.queues.len()
            invariant
                i <= self.queues@.len(),
                q == grid(self.queues@),
                ready_from(q, 0) == ready_from(q, i as int),
            decreases self.queues@.len() - i,
        {
            assert(q[i as int] == self.queues@[i as int]@);
            if self.queues[i].len() > 0 {
                return Some(i);
            }
            i = i + 1;
        }
        None
    }

    /// Place one constraint.
    fn place_one(
        &mut self,
        tiers: &Vec<Tier>,
        pure_tier: &Tier,
        c: &PlonkConstraint,
        Ghost(cols): Ghost<int>,
        Ghost(rows): Ghost<int>,
        Ghost(gates): Ghost<int>,
    )
        requires
            fits(old(self).state(), cols, rows, gates),
            old(self).partial.wf(),
            old(self).queues@.len() == tiers@.len(),
            forall|i: int| 0 <= i < tiers@.len() ==> tier_fits(#[trigger] tiers@[i], gates),
            tier_fits(*pure_tier, gates),
            place(tiers@, *pure_tier, old(self).state(), *c).row <= rows <= usize::MAX,
        ensures
            final(self).partial.wf(),
            final(self).queues@.len() == tiers@.len(),
            final(self).state() == place(tiers@, *pure_tier, old(self).state(), *c),
            fits(final(self).state(), cols, rows, gates),
    {
        let ghost st = self.state();
        proof {
            lemma_place_fits(tiers@, *pure_tier, st, *c, cols, rows, gates);
            crate::plonk2pil::placement::lemma_ready_waiting(st.queues, 0);
        }
        let k: Key = gate_key(c);
        match self.partial.get(&k) {
            Some(s) => {
                assert(slots_fit(s, rows, gates));
                set_gate(&mut self.s_map, s.next, s.row, c);
                if s.next + 1 < s.end {
                    self.partial.set(k, Slots { row: s.row, next: s.next + 1, end: s.end });
                } else {
                    self.partial.remove(&k);
                }
            },
            None => {
                if self.half.len() > 0 {
                    assert(slots_fit(st.half[0], rows, gates));
                    let s: Slots = self.half.remove(0);
                    set_bank(&mut self.cv, 1, s.row, c, Ghost(rows));
                    set_gates(
                        &mut self.s_map,
                        s.next,
                        s.end,
                        s.row,
                        c,
                        Ghost(cols),
                        Ghost(rows),
                    );
                    if s.next + 1 < s.end {
                        self.partial.set(k, Slots { row: s.row, next: s.next + 1, end: s.end });
                    }
                    assert(self.half@ =~= st.half.skip(1));
                } else {
                    match self.ready() {
                        Some(i) => {
                            assert(st.queues[i as int] == self.queues@[i as int]@);
                            assert(st.queues[i as int][0] < rows);
                            let row: usize = self.queues[i].remove(0);
                            let ghost mid = self.state();
                            proof {
                                assert(mid.queues =~= st.queues.update(
                                    i as int,
                                    st.queues[i as int].skip(1),
                                ));
                                assert(fits(mid, cols, rows, gates)) by {
                                    assert forall|x: int, y: int|
                                        0 <= x < mid.queues.len() && 0 <= y
                                            < mid.queues[x].len() implies #[trigger] mid.queues[x][y]
                                        < rows by {
                                        if x == i {
                                            assert(mid.queues[x][y] == st.queues[x][y + 1]);
                                        } else {
                                            assert(mid.queues[x][y] == st.queues[x][y]);
                                        }
                                    }
                                }
                            }
                            let t: Tier = tiers[i];
                            self.open(&t, row, c, Ghost(cols), Ghost(rows), Ghost(gates));
                        },
                        None => {
                            let row: usize = self.row;
                            self.open(
                                pure_tier,
                                row,
                                c,
                                Ghost(cols),
                                Ghost(rows),
                                Ghost(gates),
                            );
                            self.row = self.row + 1;
                        },
                    }
                }
            },
        }
    }

    /// Place all constraints.
    pub(crate) fn place_constraints(
        &mut self,
        tiers: &Vec<Tier>,
        pure_tier: &Tier,
        cs: &Vec<PlonkConstraint>,
        Ghost(cols): Ghost<int>,
        Ghost(rows): Ghost<int>,
        Ghost(gates): Ghost<int>,
    )
        requires
            fits(old(self).state(), cols, rows, gates),
            old(self).partial.wf(),
            old(self).partial@ == Map::<Key, Slots>::empty(),
            old(self).half@.len() == 0,
            old(self).queues@.len() == tiers@.len(),
            forall|i: int| 0 <= i < tiers@.len() ==> tier_fits(#[trigger] tiers@[i], gates),
            tier_fits(*pure_tier, gates),
            old(self).row + own_rows(
                tiers@,
                *pure_tier,
                waiting_of(old(self).state().queues),
                cs@,
            ) <= rows <= usize::MAX,
        ensures
            final(self).state() == place_all(
                tiers@,
                *pure_tier,
                old(self).state(),
                cs@,
                cs@.len(),
            ),
            final(self).row == old(self).row + own_rows(
                tiers@,
                *pure_tier,
                waiting_of(old(self).state().queues),
                cs@,
            ),
            fits(final(self).state(), cols, rows, gates),
    {
        let ghost st = self.state();
        let ghost waiting = waiting_of(st.queues);
        let mut i: usize = 0;
        while i < cs.len()
            invariant
                i <= cs@.len(),
                st.queues.len() == tiers@.len(),
                st.partial == Map::<Key, Slots>::empty(),
                st.half.len() == 0,
                waiting == waiting_of(st.queues),
                self.partial.wf(),
                self.queues@.len() == tiers@.len(),
                fits(self.state(), cols, rows, gates),
                forall|j: int| 0 <= j < tiers@.len() ==> tier_fits(#[trigger] tiers@[j], gates),
                tier_fits(*pure_tier, gates),
                st.row + own_rows(tiers@, *pure_tier, waiting, cs@) <= rows <= usize::MAX,
                self.state() == place_all(tiers@, *pure_tier, st, cs@, i as nat),
            decreases cs@.len() - i,
        {
            proof {
                law_rows_counted(tiers@, *pure_tier, st, cs@, (i + 1) as nat);
                lemma_rows_grow(
                    tiers@,
                    *pure_tier,
                    waiting,
                    cs@,
                    (i + 1) as nat,
                    cs@.len(),
                );
            }
            self.place_one(tiers, pure_tier, &cs[i], Ghost(cols), Ghost(rows), Ghost(gates));
            i = i + 1;
        }
        proof {
            law_rows_counted(tiers@, *pure_tier, st, cs@, cs@.len());
        }
    }
}

/// What is open and waiting in a placement whose rows do not matter.
struct Counter {
    partial: OpenGates,
    half: Vec<Slots>,
    waiting: Vec<usize>,
    rows: usize,
}

impl Counter {
    spec fn shape(&self) -> Shape {
        Shape {
            partial: Map::new(
                |k: Key| self.partial@.dom().contains(k),
                |k: Key| (self.partial@[k].next as int, self.partial@[k].end as int),
            ),
            half: Seq::new(
                self.half@.len(),
                |i: int| (self.half@[i].next as int, self.half@[i].end as int),
            ),
            waiting: Seq::new(self.waiting@.len(), |i: int| self.waiting@[i] as nat),
            rows: self.rows as nat,
        }
    }

    spec fn bounded(&self, gates: int) -> bool {
        &&& forall|k: Key| #[trigger]
            self.partial@.dom().contains(k) ==> self.partial@[k].next < self.partial@[k].end
        &&& forall|i: int|
            0 <= i < self.half@.len() ==> (#[trigger] self.half@[i]).next < self.half@[i].end
    }

    fn open(&mut self, t: &Tier, k: Key, Ghost(gates): Ghost<int>)
        requires
            old(self).partial.wf(),
            old(self).bounded(gates),
            tier_fits(*t, gates),
        ensures
            final(self).partial.wf(),
            final(self).bounded(gates),
            final(self).shape() == crate::plonk2pil::placement::open_shape(
                old(self).shape(),
                *t,
                k,
            ),
            final(self).waiting@ == old(self).waiting@,
            final(self).rows == old(self).rows,
    {
        let ghost want = crate::plonk2pil::placement::open_shape(self.shape(), *t, k);
        if t.first + 1 < t.end {
            self.partial.set(k, Slots { row: 0, next: t.first + 1, end: t.end });
        }
        if t.half_first < t.half_end {
            self.half.push(Slots { row: 0, next: t.half_first, end: t.half_end });
        }
        proof {
            assert(self.shape().partial =~= want.partial);
            assert(self.shape().half =~= want.half);
            assert(self.shape().waiting =~= want.waiting);
        }
    }

    fn ready(&self) -> (r: Option<usize>)
        ensures
            match r {
                Some(i) => waiting_from(self.shape().waiting, 0) == Some(i as int) && i
                    < self.waiting@.len() && self.waiting@[i as int] > 0,
                None => waiting_from(self.shape().waiting, 0) is None,
            },
    {
        let ghost w = self.shape().waiting;
        let mut i: usize = 0;
        while i < self.waiting.len()
            invariant
                i <= self.waiting@.len(),
                w == self.shape().waiting,
                waiting_from(w, 0) == waiting_from(w, i as int),
            decreases self.waiting@.len() - i,
        {
            assert(w[i as int] == self.waiting@[i as int]);
            if self.waiting[i] > 0 {
                return Some(i);
            }
            i = i + 1;
        }
        None
    }

    fn count_one(&mut self, tiers: &Vec<Tier>, pure_tier: &Tier, k: Key, Ghost(gates): Ghost<int>)
        requires
            old(self).partial.wf(),
            old(self).bounded(gates),
            old(self).waiting@.len() == tiers@.len(),
            forall|i: int| 0 <= i < tiers@.len() ==> tier_fits(#[trigger] tiers@[i], gates),
            tier_fits(*pure_tier, gates),
            old(self).rows < usize::MAX,
        ensures
            final(self).partial.wf(),
            final(self).bounded(gates),
            final(self).waiting@.len() == tiers@.len(),
            final(self).shape() == place_shape(tiers@, *pure_tier, old(self).shape(), k),
            final(self).rows <= old(self).rows + 1,
    {
        let ghost st = self.shape();
        let ghost want = place_shape(tiers@, *pure_tier, st, k);
        match self.partial.get(&k) {
            Some(s) => {
                assert(st.partial.dom().contains(k));
                if s.next + 1 < s.end {
                    self.partial.set(k, Slots { row: 0, next: s.next + 1, end: s.end });
                } else {
                    self.partial.remove(&k);
                }
                proof {
                    assert(self.shape().partial =~= want.partial);
                    assert(self.shape().half =~= want.half);
                }
            },
            None => {
                assert(!st.partial.dom().contains(k));
                if self.half.len() > 0 {
                    let ghost before = self.half@;
                    assert(before[0].next < before[0].end);
                    let s: Slots = self.half.remove(0);
                    if s.next + 1 < s.end {
                        self.partial.set(k, Slots { row: 0, next: s.next + 1, end: s.end });
                    }
                    proof {
                        assert forall|i: int| 0 <= i < self.half@.len() implies (
                        #[trigger] self.half@[i]).next < self.half@[i].end by {
                            assert(self.half@[i] == before[i + 1]);
                        }
                        assert(self.shape().partial =~= want.partial);
                        assert(self.shape().half =~= want.half);
                    }
                } else {
                    match self.ready() {
                        Some(i) => {
                            self.open(&tiers[i], k, Ghost(gates));
                            let ghost opened = self.shape();
                            let ghost w = self.waiting@;
                            self.waiting[i] = self.waiting[i] - 1;
                            proof {
                                assert(self.shape().waiting =~= want.waiting);
                                assert(self.shape().partial =~= want.partial);
                                assert(self.shape().half =~= want.half);
                            }
                        },
                        None => {
                            self.open(pure_tier, k, Ghost(gates));
                            self.rows = self.rows + 1;
                            proof {
                                assert(self.shape().partial =~= want.partial);
                                assert(self.shape().half =~= want.half);
                                assert(self.shape().waiting =~= want.waiting);
                            }
                        },
                    }
                }
            },
        }
    }
}

/// How many rows of their own the constraints need.
pub(crate) fn count_own_rows(
    tiers: &Vec<Tier>,
    pure_tier: &Tier,
    waiting: Vec<usize>,
    cs: &Vec<PlonkConstraint>,
    Ghost(gates): Ghost<int>,
) -> (r: usize)
    requires
        waiting@.len() == tiers@.len(),
        forall|i: int| 0 <= i < tiers@.len() ==> tier_fits(#[trigger] tiers@[i], gates),
        tier_fits(*pure_tier, gates),
    ensures
        r == own_rows(
            tiers@,
            *pure_tier,
            Seq::new(waiting@.len(), |i: int| waiting@[i] as nat),
            cs@,
        ),
        r <= cs@.len(),
{
    let ghost w0 = Seq::new(waiting@.len(), |i: int| waiting@[i] as nat);
    let mut st: Counter = Counter {
        partial: OpenGates::new(),
        half: Vec::new(),
        waiting,
        rows: 0,
    };
    proof {
        let got = st.shape();
        assert(got.partial =~= Map::<Key, (int, int)>::empty());
        assert(got.half =~= Seq::<(int, int)>::empty());
        assert(got.waiting =~= w0);
    }
    let mut i: usize = 0;
    while i < cs.len()
        invariant
            i <= cs@.len(),
            st.partial.wf(),
            st.bounded(gates),
            st.waiting@.len() == tiers@.len(),
            st.rows <= i,
            forall|j: int| 0 <= j < tiers@.len() ==> tier_fits(#[trigger] tiers@[j], gates),
            tier_fits(*pure_tier, gates),
            st.shape() == shape_all(tiers@, *pure_tier, w0, cs@, i as nat),
        decreases cs@.len() - i,
    {
        st.count_one(tiers, pure_tier, gate_key(&cs[i]), Ghost(gates));
        i = i + 1;
    }
    st.rows
}

} // verus!
