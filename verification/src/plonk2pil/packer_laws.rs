//! Why a packed trace is right: every signal of every custom gate is in its cell, and every PLONK
//! constraint is in a gate.
use vstd::prelude::*;

use crate::plonk2pil::custom_gates::{is_fft4, role_gate};
use crate::plonk2pil::grid::{filled, is_table};
use crate::plonk2pil::layout::{HashFamily, Layout, SetupType};
use crate::plonk2pil::packer::{
    counts_of, custom_cells, custom_placing, fft4_coefs, fft4_uses, first_poseidon, flat_blocks,
    is_n_bits, key_signals, lemma_cmul_step, lemma_filled_table, packable, packed_constraints,
    packed_placing, role_uses, second_poseidon, used_rows, uses_exact, uses_fit, with_cmuls,
    with_ffts, with_row,
};
use crate::plonk2pil::placement::{law_rows_counted, place_all};
use crate::plonk2pil::placement_laws::{
    law_custom_cells_stay, law_every_constraint_placed, law_idle_coefs_stay,
    lemma_placed_tables, may_start, out_of_reach, slot_holds,
    tier_covers,
};
use crate::plonk2pil::placer::lemma_table_cell;
use crate::plonk2pil::r1cs::{CustomGate, CustomGateUse, GateRole, R1csFile};
use crate::plonk2pil::rows::{
    cmul_base, custom_rows, ev_base, fft_base, law_waiting_rows, lemma_bases, no_queues,
    planned_queues, rows_of, sel_base, tree_base, with_all_offers, with_offers, Counts,
};
use crate::plonk2pil::stencil::{
    all_apart, block_fits, blocks_fit, law_signals_placed, lemma_block_cell, lemma_block_table,
    lemma_blocks_elsewhere, lemma_blocks_table, uses_wide, with_uses, Block,
};

verus! {

proof fn lemma_row_in_gate(height: int, u: int, n: int, off: int)
    requires
        0 <= u < n,
        0 <= off < height,
    ensures
        0 <= height * u,
        height * u + off < height * n,
        height * u + height <= height * n,
{
    assert(height * u + height <= height * n) by (nonlinear_arith)
        requires
            u + 1 <= n,
            height >= 0,
    ;
    assert(0 <= height * u) by (nonlinear_arith)
        requires
            u >= 0,
            height >= 0,
    ;
}

/// Placing uses keeps the table, and every cell outside their rows.
proof fn lemma_uses_frame(
    g: Seq<Seq<u32>>,
    cols: int,
    rows: int,
    base: int,
    height: int,
    bs: Seq<Block>,
    uses: Seq<CustomGateUse>,
    n: nat,
    n_signals: int,
)
    requires
        is_table(g, cols, rows),
        blocks_fit(bs, cols, height, n_signals),
        uses_wide(uses, n_signals),
        n <= uses.len(),
        0 <= base,
        0 <= height,
        base + height * n <= rows,
    ensures
        is_table(with_uses(g, base, height, bs, uses, n), cols, rows),
        forall|col: int, r: int|
            #![trigger with_uses(g, base, height, bs, uses, n)[col][r]]
            0 <= col < cols && 0 <= r < rows && !(base <= r < base + height * n) ==> with_uses(
                g,
                base,
                height,
                bs,
                uses,
                n,
            )[col][r] == g[col][r],
    decreases n,
{
    if n > 0 {
        let m = (n - 1) as nat;
        assert(height * n == height * m + height) by (nonlinear_arith)
            requires
                n == m + 1,
        ;
        assert(0 <= height * m) by (nonlinear_arith)
            requires
                height >= 0,
                m >= 0,
        ;
        lemma_uses_frame(g, cols, rows, base, height, bs, uses, m, n_signals);
        let h = with_uses(g, base, height, bs, uses, m);
        let row = base + height * m;
        let sig = uses[m as int].signals@;
        assert(sig.len() >= n_signals);
        lemma_fit_more(bs, cols, height, n_signals, sig.len() as int);
        lemma_blocks_table(h, cols, rows, row, height, sig, bs, bs.len());
        let out = with_uses(g, base, height, bs, uses, n);
        assert forall|col: int, r: int|
            #![trigger out[col][r]]
            0 <= col < cols && 0 <= r < rows && !(base <= r < base + height * n) implies out[col][r]
            == g[col][r] by {
            assert forall|i: int| 0 <= i < bs.len() implies !(r == row + (#[trigger] bs[i]).off
                && bs[i].col <= col < bs[i].col + bs[i].n) by {
                assert(block_fits(bs[i], cols, height, n_signals));
            }
            lemma_blocks_elsewhere(h, cols, rows, row, height, sig, bs, bs.len(), col, r);
            assert(h[col][r] == g[col][r]);
        }
    }
}

proof fn lemma_fit_more(bs: Seq<Block>, cols: int, height: int, a: int, b: int)
    requires
        blocks_fit(bs, cols, height, a),
        a <= b,
    ensures
        blocks_fit(bs, cols, height, b),
{
    assert forall|i: int| 0 <= i < bs.len() implies block_fits(#[trigger] bs[i], cols, height, b)
        by {
        assert(block_fits(bs[i], cols, height, a));
    }
}

/// Every signal of every use is found in its cell.
proof fn lemma_uses_cell(
    g: Seq<Seq<u32>>,
    cols: int,
    rows: int,
    base: int,
    height: int,
    bs: Seq<Block>,
    uses: Seq<CustomGateUse>,
    n: nat,
    n_signals: int,
    u: int,
    i: int,
    k: int,
)
    requires
        is_table(g, cols, rows),
        blocks_fit(bs, cols, height, n_signals),
        all_apart(bs),
        uses_wide(uses, n_signals),
        n <= uses.len(),
        0 <= base,
        0 <= height,
        base + height * n <= rows,
        0 <= u < n,
        0 <= i < bs.len(),
        0 <= k < bs[i].n,
    ensures
        with_uses(g, base, height, bs, uses, n)[bs[i].col + k][base + height * u + bs[i].off]
            == uses[u].signals@[bs[i].sig + k] as u32,
    decreases n,
{
    let m = (n - 1) as nat;
    assert(height * n == height * m + height) by (nonlinear_arith)
        requires
            n == m + 1,
    ;
    assert(0 <= height * m) by (nonlinear_arith)
        requires
            height >= 0,
            m >= 0,
    ;
    lemma_uses_frame(g, cols, rows, base, height, bs, uses, m, n_signals);
    let h = with_uses(g, base, height, bs, uses, m);
    let row = base + height * m;
    let sig = uses[m as int].signals@;
    assert(sig.len() >= n_signals);
    lemma_fit_more(bs, cols, height, n_signals, sig.len() as int);
    assert(block_fits(bs[i], cols, height, n_signals));
    if u == m {
        law_signals_placed(h, cols, rows, row, height, sig, bs, bs.len(), i, k);
    } else {
        lemma_uses_cell(g, cols, rows, base, height, bs, uses, m, n_signals, u, i, k);
        lemma_row_in_gate(height, u, m as int, bs[i].off as int);
        let r = base + height * u + bs[i].off;
        let col = bs[i].col + k;
        assert forall|x: int| 0 <= x < bs.len() implies !(r == row + (#[trigger] bs[x]).off
            && bs[x].col <= col < bs[x].col + bs[x].n) by {
            assert(block_fits(bs[x], cols, height, n_signals));
        }
        lemma_blocks_elsewhere(h, cols, rows, row, height, sig, bs, bs.len(), col, r);
    }
}

proof fn lemma_cmuls(
    g: Seq<Seq<u32>>,
    cols: int,
    rows: int,
    base: int,
    per: int,
    uses: Seq<CustomGateUse>,
    n: nat,
)
    requires
        is_table(g, cols, rows),
        per == 2 || per == 3,
        9 * per <= cols,
        uses_exact(uses, 9),
        n <= uses.len(),
        0 <= base,
        base + rows_of(n, per) <= rows,
    ensures
        is_table(with_cmuls(g, base, per, uses, n), cols, rows),
        forall|col: int, r: int|
            #![trigger with_cmuls(g, base, per, uses, n)[col][r]]
            0 <= col < cols && 0 <= r < rows && !(base <= r < base + rows_of(n, per)) ==> with_cmuls(
                g,
                base,
                per,
                uses,
                n,
            )[col][r] == g[col][r],
    decreases n,
{
    if n > 0 {
        let m = (n - 1) as nat;
        lemma_cmul_step(m as int, n as int, per);
        assert(rows_of(m, per) <= rows_of(n, per)) by {
            if per == 2 {
                assert((m + 1) / 2 <= (n + 1) / 2);
            } else {
                assert((m + 2) / 3 <= (n + 2) / 3);
            }
        }
        lemma_cmuls(g, cols, rows, base, per, uses, m);
        let h = with_cmuls(g, base, per, uses, m);
        let row = base + (m as int) / per;
        let b = Block { n: 9, col: (9 * ((m as int) % per)) as usize, off: 0, sig: 0 };
        let sig = uses[m as int].signals@;
        lemma_block_table(h, cols, rows, row, sig, b, 9);
        let out = with_cmuls(g, base, per, uses, n);
        assert forall|col: int, r: int|
            #![trigger out[col][r]]
            0 <= col < cols && 0 <= r < rows && !(base <= r < base + rows_of(n, per)) implies out[col][r]
            == g[col][r] by {
            lemma_block_cell(h, cols, rows, row, sig, b, 9, col, r);
            assert(h[col][r] == g[col][r]);
        }
    } else {
        assert(rows_of(0, per) == 0) by {
            assert(1int / 2 == 0);
            assert(2int / 3 == 0);
        }
    }
}

/// Every signal of every complex multiplication is found in its cell.
proof fn lemma_cmul_cell(
    g: Seq<Seq<u32>>,
    cols: int,
    rows: int,
    base: int,
    per: int,
    uses: Seq<CustomGateUse>,
    n: nat,
    u: int,
    k: int,
)
    requires
        is_table(g, cols, rows),
        per == 2 || per == 3,
        9 * per <= cols,
        uses_exact(uses, 9),
        n <= uses.len(),
        0 <= base,
        base + rows_of(n, per) <= rows,
        0 <= u < n,
        0 <= k < 9,
    ensures
        with_cmuls(g, base, per, uses, n)[9 * (u % per) + k][base + u / per]
            == uses[u].signals@[k] as u32,
    decreases n,
{
    let m = (n - 1) as nat;
    lemma_cmul_step(m as int, n as int, per);
    lemma_cmul_step(u, n as int, per);
    assert(rows_of(m, per) <= rows_of(n, per)) by {
        if per == 2 {
            assert((m + 1) / 2 <= (n + 1) / 2);
        } else {
            assert((m + 2) / 3 <= (n + 2) / 3);
        }
    }
    lemma_cmuls(g, cols, rows, base, per, uses, m);
    let h = with_cmuls(g, base, per, uses, m);
    let row = base + (m as int) / per;
    let b = Block { n: 9, col: (9 * ((m as int) % per)) as usize, off: 0, sig: 0 };
    let sig = uses[m as int].signals@;
    let col = 9 * (u % per) + k;
    let r = base + u / per;
    lemma_block_cell(h, cols, rows, row, sig, b, 9, col, r);
    if u < m {
        lemma_cmul_cell(g, cols, rows, base, per, uses, m, u, k);
        assert(!(r == row && b.col <= col < b.col + 9)) by {
            if per == 2 {
                assert(u / 2 == (m as int) / 2 ==> u % 2 != (m as int) % 2);
            } else {
                assert(u / 3 == (m as int) / 3 ==> u % 3 != (m as int) % 3);
            }
        }
    }
}

/// The row offers its gates to this tier.
pub open spec fn offered(l: Layout, c: Counts, row: int, t: int) -> bool {
    ||| exists|u: int, i: int|
        0 <= u < c.poseidon && 0 <= i < l.spec_poseidon_offers().len() && row
            == l.spec_poseidon_rows() * u + (#[trigger] l.spec_poseidon_offers()[i]).0 && t
            == l.spec_poseidon_offers()[i].1 && #[trigger] is_index(u)
    ||| cmul_base(l, c) <= row < ev_base(l, c) && l.kind == SetupType::Aggregation && t == 2
    ||| ev_base(l, c) <= row < fft_base(l, c) && t == 3
    ||| tree_base(l, c) <= row < sel_base(l, c) && l.family == HashFamily::Poseidon2 && t == 2
    ||| sel_base(l, c) <= row < custom_rows(l, c) && l.kind == SetupType::Compressor && t == 4
}

/// Marks an index in a quantifier.
pub open spec fn is_index(u: int) -> bool {
    true
}

/// Every entry is one of the old ones, or one of the offers.
spec fn entries(
    queues: Seq<Seq<usize>>,
    old_queues: Seq<Seq<usize>>,
    base: int,
    height: int,
    offers: Seq<(usize, usize)>,
    n: int,
    m: int,
) -> bool {
    forall|t: int, j: int|
        0 <= t < queues.len() && 0 <= j < queues[t].len() ==> (old_queues[t].contains(
            #[trigger] queues[t][j],
        ) || exists|u: int, i: int|
            0 <= u && 0 <= i < offers.len() && (u < n || (u == n && i < m)) && queues[t][j] == base
                + height * u + (#[trigger] offers[i]).0 && t == offers[i].1 && #[trigger] is_index(
                u,
            ))
}

proof fn lemma_offer_entries(
    q: Seq<Seq<usize>>,
    old_queues: Seq<Seq<usize>>,
    base: int,
    height: int,
    offers: Seq<(usize, usize)>,
    n: int,
    m: nat,
)
    requires
        entries(q, old_queues, base, height, offers, n, 0),
        q.len() == old_queues.len(),
        0 <= n,
        m <= offers.len(),
        forall|i: int| 0 <= i < offers.len() ==> (#[trigger] offers[i]).1 < q.len() && offers[i].0
            < height,
        0 <= base + height * n,
        base + height * n + height <= usize::MAX,
    ensures
        entries(
            with_offers(q, base + height * n, offers, m),
            old_queues,
            base,
            height,
            offers,
            n,
            m as int,
        ),
        with_offers(q, base + height * n, offers, m).len() == q.len(),
    decreases m,
{
    if m > 0 {
        lemma_offer_entries(q, old_queues, base, height, offers, n, (m - 1) as nat);
        let p = with_offers(q, base + height * n, offers, (m - 1) as nat);
        let next = with_offers(q, base + height * n, offers, m);
        let (off, t0) = offers[m - 1];
        assert(offers[m - 1].1 < q.len() && offers[m - 1].0 < height);
        assert forall|t: int, j: int|
            0 <= t < next.len() && 0 <= j < next[t].len() implies (old_queues[t].contains(
            #[trigger] next[t][j],
        ) || exists|u: int, i: int|
            0 <= u && 0 <= i < offers.len() && (u < n || (u == n && i < m)) && next[t][j] == base
                + height * u + (#[trigger] offers[i]).0 && t == offers[i].1 && #[trigger] is_index(
                u,
            )) by {
            if t == t0 && j == p[t].len() {
                assert(next[t][j] == base + height * n + offers[m - 1].0);
                assert(is_index(n));
            } else {
                assert(next[t][j] == p[t][j]);
                if !old_queues[t].contains(p[t][j]) {
                    let (u, i) = choose|u: int, i: int|
                        0 <= u && 0 <= i < offers.len() && (u < n || (u == n && i < m - 1))
                            && p[t][j] == base + height * u + (#[trigger] offers[i]).0 && t
                            == offers[i].1 && #[trigger] is_index(u);
                    assert(next[t][j] == base + height * u + offers[i].0 && is_index(u));
                }
            }
        }
    }
}

proof fn lemma_all_entries(
    q: Seq<Seq<usize>>,
    base: int,
    height: int,
    offers: Seq<(usize, usize)>,
    n: nat,
)
    requires
        forall|i: int| 0 <= i < offers.len() ==> (#[trigger] offers[i]).1 < q.len() && offers[i].0
            < height,
        0 <= base,
        0 <= height,
        base + height * n <= usize::MAX,
    ensures
        entries(with_all_offers(q, base, height, offers, n), q, base, height, offers, n as int, 0),
        with_all_offers(q, base, height, offers, n).len() == q.len(),
    decreases n,
{
    if n > 0 {
        let m = (n - 1) as nat;
        assert(height * n == height * m + height) by (nonlinear_arith)
            requires
                n == m + 1,
        ;
        assert(0 <= height * m) by (nonlinear_arith)
            requires
                height >= 0,
                m >= 0,
        ;
        lemma_all_entries(q, base, height, offers, m);
        let p = with_all_offers(q, base, height, offers, m);
        lemma_offer_entries(p, q, base, height, offers, m as int, offers.len());
        let next = with_all_offers(q, base, height, offers, n);
        assert forall|t: int, j: int|
            0 <= t < next.len() && 0 <= j < next[t].len() implies (q[t].contains(
            #[trigger] next[t][j],
        ) || exists|u: int, i: int|
            0 <= u && 0 <= i < offers.len() && (u < n || (u == n && i < 0)) && next[t][j] == base
                + height * u + (#[trigger] offers[i]).0 && t == offers[i].1 && #[trigger] is_index(
                u,
            )) by {
            if !q[t].contains(next[t][j]) {
                let (u, i) = choose|u: int, i: int|
                    0 <= u && 0 <= i < offers.len() && (u < m || (u == m && i < offers.len()))
                        && next[t][j] == base + height * u + (#[trigger] offers[i]).0 && t
                        == offers[i].1 && #[trigger] is_index(u);
                assert(next[t][j] == base + height * u + offers[i].0 && is_index(u));
            }
        }
    } else {
        assert forall|t: int, j: int| 0 <= t < q.len() && 0 <= j < q[t].len() implies q[t].contains(
            #[trigger] q[t][j],
        ) by {}
    }
}

/// Every queue entry is an offered row.
proof fn lemma_queue_entries(l: Layout, c: Counts, t: int, j: int)
    requires
        custom_rows(l, c) <= usize::MAX,
        0 <= t < planned_queues(l, c).len(),
        0 <= j < planned_queues(l, c)[t].len(),
    ensures
        offered(l, c, planned_queues(l, c)[t][j] as int, t),
{
    lemma_bases(l, c);
    let cr = rows_of(c.cmul as nat, l.spec_cmul_per_row()) as nat;
    let q0 = no_queues(l.spec_tiers().len());
    let h = l.spec_poseidon_rows();
    let po = l.spec_poseidon_offers();
    let q1 = with_all_offers(q0, 0, h, po, c.poseidon as nat);
    lemma_all_entries(q0, 0, h, po, c.poseidon as nat);
    let co = l.spec_cmul_offers();
    let q2 = with_all_offers(q1, cmul_base(l, c), 1, co, cr);
    assert(1 * cr == cr);
    lemma_all_entries(q1, cmul_base(l, c), 1, co, cr);
    let eo = l.spec_ev_offers();
    let q3 = with_all_offers(q2, ev_base(l, c), 1, eo, c.ev_pol4 as nat);
    lemma_all_entries(q2, ev_base(l, c), 1, eo, c.ev_pol4 as nat);
    let to = l.spec_tree_offers();
    let th = l.spec_tree_rows();
    let q4 = with_all_offers(q3, tree_base(l, c), th, to, c.tree as nat);
    lemma_all_entries(q3, tree_base(l, c), th, to, c.tree as nat);
    let so = l.spec_sel_offers();
    let q5 = with_all_offers(q4, sel_base(l, c), 1, so, c.sel as nat);
    lemma_all_entries(q4, sel_base(l, c), 1, so, c.sel as nat);
    assert(q5 == planned_queues(l, c));
    let row = q5[t][j];
    if !q4[t].contains(row) {
        let (u, i) = choose|u: int, i: int|
            0 <= u && 0 <= i < so.len() && (u < c.sel || (u == c.sel && i < 0)) && q5[t][j]
                == sel_base(l, c) + 1 * u + (#[trigger] so[i]).0 && t == so[i].1
                && #[trigger] is_index(u);
        assert(so.len() > 0);
    } else {
        let j4 = q4[t].index_of(row);
        assert(q4[t][j4] == row);
        if !q3[t].contains(row) {
            let (u, i) = choose|u: int, i: int|
                0 <= u && 0 <= i < to.len() && (u < c.tree || (u == c.tree && i < 0)) && q4[t][j4]
                    == tree_base(l, c) + th * u + (#[trigger] to[i]).0 && t == to[i].1
                    && #[trigger] is_index(u);
            assert(to.len() > 0);
            lemma_row_in_gate(th, u, c.tree as int, to[i].0 as int);
        } else {
            let j3 = q3[t].index_of(row);
            assert(q3[t][j3] == row);
            if !q2[t].contains(row) {
                let (u, i) = choose|u: int, i: int|
                    0 <= u && 0 <= i < eo.len() && (u < c.ev_pol4 || (u == c.ev_pol4 && i < 0))
                        && q3[t][j3] == ev_base(l, c) + 1 * u + (#[trigger] eo[i]).0 && t
                        == eo[i].1 && #[trigger] is_index(u);
                assert(eo.len() > 0);
            } else {
                let j2 = q2[t].index_of(row);
                assert(q2[t][j2] == row);
                if !q1[t].contains(row) {
                    let (u, i) = choose|u: int, i: int|
                        0 <= u && 0 <= i < co.len() && (u < cr || (u == cr && i < 0)) && q2[t][j2]
                            == cmul_base(l, c) + 1 * u + (#[trigger] co[i]).0 && t == co[i].1
                            && #[trigger] is_index(u);
                    assert(co.len() > 0);
                } else {
                    let j1 = q1[t].index_of(row);
                    assert(q1[t][j1] == row);
                    assert(!q0[t].contains(row));
                    let (u, i) = choose|u: int, i: int|
                        0 <= u && 0 <= i < po.len() && (u < c.poseidon || (u == c.poseidon && i
                            < 0)) && q1[t][j1] == 0 + h * u + (#[trigger] po[i]).0 && t == po[i].1
                            && #[trigger] is_index(u);
                    assert(row == h * u + po[i].0 && is_index(u));
                }
            }
        }
    }
}

/// A gate of the layout, for the cells that it occupies.
pub enum GateKind {
    Poseidon { key: usize },
    CMul,
    EvPol4,
    Fft4,
    Tree,
    Sel,
}

/// Some block covers the column in the row `off` after the first.
pub open spec fn some_covers(bs: Seq<Block>, off: int, col: int) -> bool {
    exists|i: int|
        0 <= i < bs.len() && (#[trigger] bs[i]).off == off && bs[i].col <= col < bs[i].col
            + bs[i].n
}

/// A custom gate occupies the column in the row `off` after its first.
pub open spec fn occupies(l: Layout, kind: GateKind, off: int, col: int) -> bool {
    match kind {
        GateKind::Poseidon { key } => some_covers(l.spec_poseidon_blocks(key), off, col),
        GateKind::CMul => off == 0 && 0 <= col < 9 * l.spec_cmul_per_row(),
        GateKind::EvPol4 => off == 0 && 0 <= col < 21,
        GateKind::Fft4 => off == 0 && 0 <= col < 24,
        GateKind::Tree => some_covers(l.spec_tree_blocks(), off, col),
        GateKind::Sel => off == 0 && 0 <= col < 22,
    }
}

/// A row never offers a gate whose cells its custom gate occupies.
pub proof fn law_gates_do_not_collide(l: Layout, key: usize, off: int, col: int, i: int)
    requires
        key == 0 || key == 2,
        0 <= i < l.spec_poseidon_offers().len(),
        l.spec_poseidon_offers()[i].0 == off,
        occupies(l, GateKind::Poseidon { key }, off, col),
    ensures
        !tier_covers(l.spec_tiers()[l.spec_poseidon_offers()[i].1 as int], col),
{
    let bs = l.spec_poseidon_blocks(key);
    let b = choose|b: int|
        0 <= b < bs.len() && (#[trigger] bs[b]).off == off && bs[b].col <= col < bs[b].col
            + bs[b].n;
    reveal(Layout::spec_poseidon_blocks);
}

proof fn lemma_block_occupies(l: Layout, key: usize, i: int, k: int)
    requires
        0 <= i < l.spec_poseidon_blocks(key).len(),
        0 <= k < l.spec_poseidon_blocks(key)[i].n,
    ensures
        occupies(
            l,
            GateKind::Poseidon { key },
            l.spec_poseidon_blocks(key)[i].off as int,
            l.spec_poseidon_blocks(key)[i].col + k,
        ),
{
    let bs = l.spec_poseidon_blocks(key);
    assert(some_covers(bs, bs[i].off as int, bs[i].col + k));
}

/// The first rows of gates of a kind.
pub open spec fn kind_base(l: Layout, c: Counts, kind: GateKind) -> int {
    match kind {
        GateKind::Poseidon { key } => 0,
        GateKind::CMul => cmul_base(l, c),
        GateKind::EvPol4 => ev_base(l, c),
        GateKind::Fft4 => fft_base(l, c),
        GateKind::Tree => tree_base(l, c),
        GateKind::Sel => sel_base(l, c),
    }
}

pub open spec fn kind_height(l: Layout, kind: GateKind) -> int {
    match kind {
        GateKind::Poseidon { key } => l.spec_poseidon_rows(),
        GateKind::Tree => l.spec_tree_rows(),
        _ => 1,
    }
}

pub open spec fn kind_count(l: Layout, c: Counts, kind: GateKind) -> int {
    match kind {
        GateKind::Poseidon { key } => c.poseidon as int,
        GateKind::CMul => rows_of(c.cmul as nat, l.spec_cmul_per_row()),
        GateKind::EvPol4 => c.ev_pol4 as int,
        GateKind::Fft4 => c.fft4 as int,
        GateKind::Tree => c.tree as int,
        GateKind::Sel => c.sel as int,
    }
}

proof fn lemma_same_gate(height: int, u: int, a: int, v: int, b: int)
    requires
        0 <= a < height,
        0 <= b < height,
        height * u + a == height * v + b,
    ensures
        u == v,
        a == b,
{
    if u < v {
        assert(height * u + height <= height * v) by (nonlinear_arith)
            requires
                u + 1 <= v,
                height >= 0,
        ;
    } else if v < u {
        assert(height * v + height <= height * u) by (nonlinear_arith)
            requires
                v + 1 <= u,
                height >= 0,
        ;
    }
}

/// A cell that a custom gate occupies is out of reach of PLONK constraints.
proof fn lemma_occupied_out_of_reach(
    l: Layout,
    c: Counts,
    kind: GateKind,
    u: int,
    off: int,
    col: int,
)
    requires
        custom_rows(l, c) <= usize::MAX,
        kind matches GateKind::Poseidon { key } ==> key == 0 || key == 2,
        0 <= u < kind_count(l, c, kind),
        0 <= off < kind_height(l, kind),
        occupies(l, kind, off, col),
    ensures
        out_of_reach(
            l.spec_tiers(),
            planned_queues(l, c),
            col,
            kind_base(l, c, kind) + kind_height(l, kind) * u + off,
        ),
{
    lemma_bases(l, c);
    law_waiting_rows(l, c);
    let q = planned_queues(l, c);
    let h = kind_height(l, kind);
    let row = kind_base(l, c, kind) + h * u + off;
    lemma_row_in_gate(h, u, kind_count(l, c, kind), off);
    let ph = l.spec_poseidon_rows();
    let po = l.spec_poseidon_offers();
    assert forall|t: int, j: int|
        0 <= t < q.len() && 0 <= j < q[t].len() && #[trigger] q[t][j] == row implies !tier_covers(
        l.spec_tiers()[t],
        col,
    ) by {
        lemma_queue_entries(l, c, t, j);
        if exists|v: int, i: int|
            0 <= v < c.poseidon && 0 <= i < po.len() && row == ph * v + (#[trigger] po[i]).0 && t
                == po[i].1 && #[trigger] is_index(v) {
            let (v, i) = choose|v: int, i: int|
                0 <= v < c.poseidon && 0 <= i < po.len() && row == ph * v + (#[trigger] po[i]).0
                    && t == po[i].1 && #[trigger] is_index(v);
            assert(po[i].0 < ph);
            lemma_row_in_gate(ph, v, c.poseidon as int, po[i].0 as int);
            assert(row < cmul_base(l, c));
            match kind {
                GateKind::Poseidon { key } => {
                    lemma_same_gate(ph, u, off, v, po[i].0 as int);
                    law_gates_do_not_collide(l, key, off, col, i);
                },
                _ => {},
            }
        } else {
            match kind {
                GateKind::Tree => {
                    let bs = l.spec_tree_blocks();
                    let b = choose|b: int|
                        0 <= b < bs.len() && (#[trigger] bs[b]).off == off && bs[b].col <= col
                            < bs[b].col + bs[b].n;
                    assert(bs[b].n <= 27);
                },
                _ => {},
            }
        }
    }
}

/// The cells after the first `n` kinds of custom gates.
spec fn cells_after(l: Layout, r1cs: R1csFile, rows: int, n: int) -> Seq<Seq<u32>> {
    let c = counts_of(r1cs);
    let h = l.spec_poseidon_rows();
    let first = role_uses(r1cs, first_poseidon(l));
    let second = role_uses(r1cs, second_poseidon(l));
    let cmul = role_uses(r1cs, GateRole::CMul);
    let ev = role_uses(r1cs, GateRole::EvPol4);
    let fft = fft4_uses(r1cs);
    let tree = role_uses(r1cs, GateRole::TreeSelector);
    let sel = role_uses(r1cs, GateRole::SelectVal1);
    let g0 = filled(l.spec_committed_pols(), rows, 0u32);
    let g1 = with_uses(
        g0,
        0,
        h,
        l.spec_poseidon_blocks(key_signals(first_poseidon(l))),
        first,
        first.len(),
    );
    let g2 = with_uses(
        g1,
        h * first.len(),
        h,
        l.spec_poseidon_blocks(key_signals(second_poseidon(l))),
        second,
        second.len(),
    );
    let g3 = with_cmuls(g2, cmul_base(l, c), l.spec_cmul_per_row(), cmul, cmul.len());
    let g4 = with_uses(g3, ev_base(l, c), 1, flat_blocks(21), ev, ev.len());
    let g5 = with_uses(g4, fft_base(l, c), 1, flat_blocks(24), fft, fft.len());
    let g6 = with_uses(
        g5,
        tree_base(l, c),
        l.spec_tree_rows(),
        l.spec_tree_blocks(),
        tree,
        tree.len(),
    );
    if n == 0 {
        g0
    } else if n == 1 {
        g1
    } else if n == 2 {
        g2
    } else if n == 3 {
        g3
    } else if n == 4 {
        g4
    } else if n == 5 {
        g5
    } else if n == 6 {
        g6
    } else {
        with_uses(g6, sel_base(l, c), 1, flat_blocks(22), sel, sel.len())
    }
}

/// The row where the `n`-th kind of custom gates starts.
spec fn start_of(l: Layout, r1cs: R1csFile, n: int) -> int {
    let c = counts_of(r1cs);
    if n == 0 {
        0
    } else if n == 1 {
        l.spec_poseidon_rows() * role_uses(r1cs, first_poseidon(l)).len()
    } else if n == 2 {
        cmul_base(l, c)
    } else if n == 3 {
        ev_base(l, c)
    } else if n == 4 {
        fft_base(l, c)
    } else if n == 5 {
        tree_base(l, c)
    } else if n == 6 {
        sel_base(l, c)
    } else {
        custom_rows(l, c)
    }
}

/// What the laws on custom gates need of an R1CS and a number of rows.
spec fn custom_ok(l: Layout, r1cs: R1csFile, rows: int) -> bool {
    let c = counts_of(r1cs);
    &&& uses_fit(l, r1cs)
    &&& c.poseidon == role_uses(r1cs, GateRole::PoseidonSponge).len() + role_uses(
        r1cs,
        GateRole::PoseidonCompression,
    ).len()
    &&& c.cmul == role_uses(r1cs, GateRole::CMul).len()
    &&& c.ev_pol4 == role_uses(r1cs, GateRole::EvPol4).len()
    &&& c.fft4 == fft4_uses(r1cs).len()
    &&& c.tree == role_uses(r1cs, GateRole::TreeSelector).len()
    &&& c.sel == role_uses(r1cs, GateRole::SelectVal1).len()
    &&& custom_rows(l, c) <= rows <= usize::MAX
}

spec fn poseidon_uses_wide(l: Layout, r1cs: R1csFile, role: GateRole) -> bool {
    uses_wide(role_uses(r1cs, role), 224 + key_signals(role))
}

proof fn lemma_starts(l: Layout, r1cs: R1csFile, rows: int)
    requires
        custom_ok(l, r1cs, rows),
    ensures
        0 == start_of(l, r1cs, 0),
        start_of(l, r1cs, 0) <= start_of(l, r1cs, 1) <= start_of(l, r1cs, 2) <= start_of(l, r1cs, 3)
            <= start_of(l, r1cs, 4) <= start_of(l, r1cs, 5) <= start_of(l, r1cs, 6) <= start_of(
            l,
            r1cs,
            7,
        ) <= rows,
        start_of(l, r1cs, 1) + l.spec_poseidon_rows() * role_uses(r1cs, second_poseidon(l)).len()
            == start_of(l, r1cs, 2),
        poseidon_uses_wide(l, r1cs, first_poseidon(l)),
        poseidon_uses_wide(l, r1cs, second_poseidon(l)),
        uses_wide(role_uses(r1cs, GateRole::TreeSelector), l.spec_tree_signals()),
        uses_wide(role_uses(r1cs, GateRole::SelectVal1), 22),
{
    let c = counts_of(r1cs);
    lemma_bases(l, c);
    let h = l.spec_poseidon_rows();
    let n1 = role_uses(r1cs, first_poseidon(l)).len() as int;
    let n2 = role_uses(r1cs, second_poseidon(l)).len() as int;
    assert(h * n1 + h * n2 == h * (n1 + n2)) by (nonlinear_arith);
    assert(0 <= h * n1 && 0 <= h * n2) by (nonlinear_arith)
        requires
            h >= 0,
            n1 >= 0,
            n2 >= 0,
    ;
}

/// Each kind of custom gates writes its own rows only.
proof fn lemma_stage(l: Layout, r1cs: R1csFile, rows: int, n: int)
    requires
        custom_ok(l, r1cs, rows),
        0 <= n <= 7,
    ensures
        is_table(cells_after(l, r1cs, rows, n), l.spec_committed_pols(), rows),
        n > 0 ==> forall|col: int, r: int|
            #![trigger cells_after(l, r1cs, rows, n)[col][r]]
            0 <= col < l.spec_committed_pols() && 0 <= r < rows && !(start_of(l, r1cs, n - 1) <= r
                < start_of(l, r1cs, n)) ==> cells_after(l, r1cs, rows, n)[col][r] == cells_after(
                l,
                r1cs,
                rows,
                n - 1,
            )[col][r],
    decreases n,
{
    let c = counts_of(r1cs);
    let cols = l.spec_committed_pols();
    lemma_starts(l, r1cs, rows);
    lemma_bases(l, c);
    l.lemma_tiers();
    if n == 0 {
        lemma_filled_table(cols, rows, 0u32);
    } else {
        lemma_stage(l, r1cs, rows, n - 1);
        let g = cells_after(l, r1cs, rows, n - 1);
        let h = l.spec_poseidon_rows();
        if n == 1 {
            l.lemma_poseidon_blocks(key_signals(first_poseidon(l)));
            let uses = role_uses(r1cs, first_poseidon(l));
            lemma_uses_frame(
                g,
                cols,
                rows,
                0,
                h,
                l.spec_poseidon_blocks(key_signals(first_poseidon(l))),
                uses,
                uses.len(),
                224 + key_signals(first_poseidon(l)),
            );
        } else if n == 2 {
            l.lemma_poseidon_blocks(key_signals(second_poseidon(l)));
            let uses = role_uses(r1cs, second_poseidon(l));
            lemma_uses_frame(
                g,
                cols,
                rows,
                start_of(l, r1cs, 1),
                h,
                l.spec_poseidon_blocks(key_signals(second_poseidon(l))),
                uses,
                uses.len(),
                224 + key_signals(second_poseidon(l)),
            );
        } else if n == 3 {
            let uses = role_uses(r1cs, GateRole::CMul);
            lemma_cmuls(g, cols, rows, cmul_base(l, c), l.spec_cmul_per_row(), uses, uses.len());
        } else if n == 4 {
            let uses = role_uses(r1cs, GateRole::EvPol4);
            lemma_uses_frame(
                g,
                cols,
                rows,
                ev_base(l, c),
                1,
                flat_blocks(21),
                uses,
                uses.len(),
                21,
            );
        } else if n == 5 {
            let uses = fft4_uses(r1cs);
            lemma_uses_frame(
                g,
                cols,
                rows,
                fft_base(l, c),
                1,
                flat_blocks(24),
                uses,
                uses.len(),
                24,
            );
        } else if n == 6 {
            let uses = role_uses(r1cs, GateRole::TreeSelector);
            l.lemma_tree_blocks();
            lemma_uses_frame(
                g,
                cols,
                rows,
                tree_base(l, c),
                l.spec_tree_rows(),
                l.spec_tree_blocks(),
                uses,
                uses.len(),
                l.spec_tree_signals(),
            );
        } else {
            let uses = role_uses(r1cs, GateRole::SelectVal1);
            lemma_uses_frame(
                g,
                cols,
                rows,
                sel_base(l, c),
                1,
                flat_blocks(22),
                uses,
                uses.len(),
                22,
            );
        }
    }
}

/// What a kind of custom gates has written stays through the later kinds.
proof fn lemma_stage_stays(l: Layout, r1cs: R1csFile, rows: int, n: int, m: int, col: int, r: int)
    requires
        custom_ok(l, r1cs, rows),
        1 <= n <= m <= 7,
        0 <= col < l.spec_committed_pols(),
        0 <= r < start_of(l, r1cs, n),
    ensures
        cells_after(l, r1cs, rows, m)[col][r] == cells_after(l, r1cs, rows, n)[col][r],
    decreases m,
{
    if n < m {
        lemma_starts(l, r1cs, rows);
        lemma_stage_stays(l, r1cs, rows, n, m - 1, col, r);
        lemma_stage(l, r1cs, rows, m);
        assert(start_of(l, r1cs, n) <= start_of(l, r1cs, m - 1));
    }
}

proof fn lemma_coefs_table(
    coefs: Seq<Seq<u64>>,
    rows: int,
    base: int,
    gates: Seq<CustomGate>,
    uses: Seq<CustomGateUse>,
    n: nat,
)
    requires
        is_table(coefs, 10, rows),
        0 <= base,
        base + n <= rows,
    ensures
        is_table(with_ffts(coefs, base, gates, uses, n), 10, rows),
    decreases n,
{
    if n > 0 {
        lemma_coefs_table(coefs, rows, base, gates, uses, (n - 1) as nat);
        lemma_row_table(
            with_ffts(coefs, base, gates, uses, (n - 1) as nat),
            rows,
            base + n - 1,
            fft4_coefs(gates[uses[n - 1].id as int].parameters@),
            10,
        );
    }
}

proof fn lemma_row_table(coefs: Seq<Seq<u64>>, rows: int, row: int, vals: Seq<u64>, n: nat)
    requires
        is_table(coefs, 10, rows),
        0 <= row < rows,
        n <= 10,
    ensures
        is_table(with_row(coefs, row, vals, n), 10, rows),
    decreases n,
{
    if n > 0 {
        lemma_row_table(coefs, rows, row, vals, (n - 1) as nat);
        lemma_table_cell(
            with_row(coefs, row, vals, (n - 1) as nat),
            10,
            rows,
            n - 1,
            row,
            vals[n - 1],
        );
    }
}

/// Counts of uses fit the machine word, as the list of uses does.
pub proof fn lemma_counts(r1cs: R1csFile)
    ensures
        fft4_uses(r1cs).len() <= usize::MAX,
        forall|role: GateRole| (#[trigger] role_uses(r1cs, role)).len() <= usize::MAX,
{
    let uses = r1cs.custom_gates_uses@;
    assert(r1cs.custom_gates_uses.len() <= usize::MAX);
    uses.lemma_filter_len(|u: CustomGateUse| is_fft4(r1cs.custom_gates@, u.id));
    assert forall|role: GateRole| (#[trigger] role_uses(r1cs, role)).len() <= usize::MAX by {
        match role_gate(r1cs, role) {
            Some(id) => {
                uses.lemma_filter_len(|u: CustomGateUse| u.id == id);
            },
            None => {},
        }
    }
}

/// The trace height of a packed R1CS, and that a placement may start on it.
proof fn lemma_ready_to_place(l: Layout, r1cs: R1csFile, merge: bool, b: nat)
    requires
        packable(l, r1cs, merge),
        is_n_bits(used_rows(l, r1cs, merge), b),
    ensures
        ({
            let rows = vstd::arithmetic::power2::pow2(b) as int;
            &&& custom_ok(l, r1cs, rows)
            &&& may_start(
                l.spec_tiers(),
                l.spec_pure_tier(),
                custom_placing(l, r1cs, rows),
                packed_constraints(r1cs, merge),
                l.spec_committed_pols(),
                rows,
                l.gates(),
                l.split(),
            )
            &&& used_rows(l, r1cs, merge) <= rows
            &&& place_all(
                l.spec_tiers(),
                l.spec_pure_tier(),
                custom_placing(l, r1cs, rows),
                packed_constraints(r1cs, merge),
                packed_constraints(r1cs, merge).len(),
            ).row == used_rows(l, r1cs, merge)
        }),
{
    let rows = vstd::arithmetic::power2::pow2(b) as int;
    let c = counts_of(r1cs);
    let used = used_rows(l, r1cs, merge);
    vstd::arithmetic::power2::lemma2_to64();
    if b > 1 {
        vstd::arithmetic::power2::lemma_pow2_unfold(b);
    }
    lemma_bases(l, c);
    lemma_counts(r1cs);
    assert(custom_ok(l, r1cs, rows));
    law_waiting_rows(l, c);
    l.lemma_tiers();
    let st = custom_placing(l, r1cs, rows);
    lemma_stage(l, r1cs, rows, 7);
    assert(st.cells == cells_after(l, r1cs, rows, 7));
    lemma_filled_table(10, rows, 0u64);
    lemma_coefs_table(
        filled(10, rows, 0u64),
        rows,
        fft_base(l, c),
        r1cs.custom_gates@,
        fft4_uses(r1cs),
        fft4_uses(r1cs).len(),
    );
    assert forall|i: int, j: int|
        0 <= i < st.queues.len() && 0 <= j < st.queues[i].len() implies #[trigger] st.queues[i][j]
        < rows by {
        assert(st.queues[i][j] < custom_rows(l, c));
    }
    let cs = packed_constraints(r1cs, merge);
    law_rows_counted(l.spec_tiers(), l.spec_pure_tier(), st, cs, cs.len());
}

/// Every PLONK constraint of a packed trace is in a gate: its signals in the cells of that gate, its
/// coefficients in the bank that it uses.
pub proof fn law_packed_constraints_placed(
    l: Layout,
    r1cs: R1csFile,
    merge: bool,
    b: nat,
    i: int,
)
    requires
        packable(l, r1cs, merge),
        is_n_bits(used_rows(l, r1cs, merge), b),
        0 <= i < packed_constraints(r1cs, merge).len(),
    ensures
        exists|row: int, gate: int|
            0 <= row < used_rows(l, r1cs, merge) && 0 <= gate < l.gates() && #[trigger] slot_holds(
                packed_placing(l, r1cs, merge, vstd::arithmetic::power2::pow2(b) as int),
                row,
                gate,
                l.split(),
                packed_constraints(r1cs, merge)[i],
            ),
{
    let rows = vstd::arithmetic::power2::pow2(b) as int;
    lemma_ready_to_place(l, r1cs, merge, b);
    law_every_constraint_placed(
        l.spec_tiers(),
        l.spec_pure_tier(),
        custom_placing(l, r1cs, rows),
        packed_constraints(r1cs, merge),
        l.spec_committed_pols(),
        rows,
        l.gates(),
        l.split(),
        i,
    );
    let st = packed_placing(l, r1cs, merge, rows);
    let c = packed_constraints(r1cs, merge)[i];
    let (row, gate) = choose|row: int, gate: int|
        0 <= row < st.row && 0 <= gate < l.gates() && #[trigger] slot_holds(
            st,
            row,
            gate,
            l.split(),
            c,
        );
    assert(slot_holds(st, row, gate, l.split(), c));
}

/// A cell that a custom gate occupies keeps its signal when PLONK constraints are placed.
proof fn lemma_packed_cell(
    l: Layout,
    r1cs: R1csFile,
    merge: bool,
    b: nat,
    kind: GateKind,
    u: int,
    off: int,
    col: int,
)
    requires
        packable(l, r1cs, merge),
        is_n_bits(used_rows(l, r1cs, merge), b),
        kind matches GateKind::Poseidon { key } ==> key == 0 || key == 2,
        0 <= u < kind_count(l, counts_of(r1cs), kind),
        0 <= off < kind_height(l, kind),
        0 <= col < l.spec_committed_pols(),
        occupies(l, kind, off, col),
    ensures
        ({
            let rows = vstd::arithmetic::power2::pow2(b) as int;
            let row = kind_base(l, counts_of(r1cs), kind) + kind_height(l, kind) * u + off;
            &&& 0 <= row < custom_rows(l, counts_of(r1cs))
            &&& packed_placing(l, r1cs, merge, rows).cells[col][row] == custom_cells(
                l,
                r1cs,
                rows,
            )[col][row]
        }),
{
    let rows = vstd::arithmetic::power2::pow2(b) as int;
    let c = counts_of(r1cs);
    lemma_ready_to_place(l, r1cs, merge, b);
    lemma_bases(l, c);
    lemma_row_in_gate(kind_height(l, kind), u, kind_count(l, c, kind), off);
    lemma_occupied_out_of_reach(l, c, kind, u, off, col);
    law_custom_cells_stay(
        l.spec_tiers(),
        l.spec_pure_tier(),
        custom_placing(l, r1cs, rows),
        packed_constraints(r1cs, merge),
        l.spec_committed_pols(),
        rows,
        l.gates(),
        l.split(),
        col,
        kind_base(l, c, kind) + kind_height(l, kind) * u + off,
    );
}

/// The number of a role's first Poseidon gate.
pub open spec fn poseidon_start(l: Layout, r1cs: R1csFile, role: GateRole) -> int {
    if role == first_poseidon(l) {
        0
    } else {
        role_uses(r1cs, first_poseidon(l)).len() as int
    }
}

/// Every signal of every Poseidon gate is in its cell of a packed trace.
pub proof fn law_packed_poseidon(
    l: Layout,
    r1cs: R1csFile,
    merge: bool,
    b: nat,
    role: GateRole,
    u: int,
    i: int,
    k: int,
)
    requires
        packable(l, r1cs, merge),
        is_n_bits(used_rows(l, r1cs, merge), b),
        role == GateRole::PoseidonSponge || role == GateRole::PoseidonCompression,
        0 <= u < role_uses(r1cs, role).len(),
        0 <= i < l.spec_poseidon_blocks(key_signals(role)).len(),
        0 <= k < l.spec_poseidon_blocks(key_signals(role))[i].n,
    ensures
        ({
            let block = l.spec_poseidon_blocks(key_signals(role))[i];
            packed_placing(
                l,
                r1cs,
                merge,
                vstd::arithmetic::power2::pow2(b) as int,
            ).cells[block.col + k][l.spec_poseidon_rows() * (poseidon_start(l, r1cs, role) + u)
                + block.off] == role_uses(r1cs, role)[u].signals@[block.sig + k] as u32
        }),
        ({
            let block = l.spec_poseidon_blocks(key_signals(role))[i];
            let row = l.spec_poseidon_rows() * (poseidon_start(l, r1cs, role) + u) + block.off;
            &&& 0 <= row < vstd::arithmetic::power2::pow2(b)
            &&& block.col + k < l.spec_committed_pols()
        }),
{
    let rows = vstd::arithmetic::power2::pow2(b) as int;
    let cols = l.spec_committed_pols();
    let h = l.spec_poseidon_rows();
    let key = key_signals(role);
    let bs = l.spec_poseidon_blocks(key);
    let uses = role_uses(r1cs, role);
    let start = poseidon_start(l, r1cs, role);
    lemma_ready_to_place(l, r1cs, merge, b);
    lemma_starts(l, r1cs, rows);
    l.lemma_poseidon_blocks(key);
    l.law_poseidon_blocks_apart(key);
    assert(block_fits(bs[i], cols, h, 224 + key));
    let stage: int = if role == first_poseidon(l) {
        1
    } else {
        2
    };
    lemma_stage(l, r1cs, rows, stage - 1);
    let base = start_of(l, r1cs, stage - 1);
    assert(base == h * start) by {
        assert(h * 0 == 0) by (nonlinear_arith);
    }
    lemma_uses_cell(
        cells_after(l, r1cs, rows, stage - 1),
        cols,
        rows,
        base,
        h,
        bs,
        uses,
        uses.len(),
        224 + key,
        u,
        i,
        k,
    );
    lemma_row_in_gate(h, u, uses.len() as int, bs[i].off as int);
    let row = base + h * u + bs[i].off;
    assert(row < start_of(l, r1cs, stage));
    lemma_stage_stays(l, r1cs, rows, stage, 7, bs[i].col + k, row);
    assert(h * start + h * u == h * (start + u)) by (nonlinear_arith);
    lemma_block_occupies(l, key, i, k);
    lemma_packed_cell(
        l,
        r1cs,
        merge,
        b,
        GateKind::Poseidon { key },
        start + u,
        bs[i].off as int,
        bs[i].col + k,
    );
}

/// Every signal of every complex multiplication is in its cell of a packed trace.
pub proof fn law_packed_cmul(l: Layout, r1cs: R1csFile, merge: bool, b: nat, u: int, k: int)
    requires
        packable(l, r1cs, merge),
        is_n_bits(used_rows(l, r1cs, merge), b),
        0 <= u < role_uses(r1cs, GateRole::CMul).len(),
        0 <= k < 9,
    ensures
        packed_placing(l, r1cs, merge, vstd::arithmetic::power2::pow2(b) as int).cells[9 * (u
            % l.spec_cmul_per_row()) + k][cmul_base(l, counts_of(r1cs)) + u
            / l.spec_cmul_per_row()] == role_uses(r1cs, GateRole::CMul)[u].signals@[k] as u32,
        0 <= cmul_base(l, counts_of(r1cs)) + u / l.spec_cmul_per_row()
            < vstd::arithmetic::power2::pow2(b),
        0 <= 9 * (u % l.spec_cmul_per_row()) + k < l.spec_committed_pols(),
{
    let rows = vstd::arithmetic::power2::pow2(b) as int;
    let c = counts_of(r1cs);
    let cols = l.spec_committed_pols();
    let per = l.spec_cmul_per_row();
    let uses = role_uses(r1cs, GateRole::CMul);
    lemma_ready_to_place(l, r1cs, merge, b);
    lemma_starts(l, r1cs, rows);
    lemma_bases(l, c);
    lemma_stage(l, r1cs, rows, 2);
    l.lemma_tiers();
    lemma_cmul_cell(
        cells_after(l, r1cs, rows, 2),
        cols,
        rows,
        cmul_base(l, c),
        per,
        uses,
        uses.len(),
        u,
        k,
    );
    lemma_cmul_step(u, uses.len() as int, per);
    let col = 9 * (u % per) + k;
    assert(col < 9 * per) by {
        if per == 2 {
        } else {
        }
    }
    lemma_stage_stays(l, r1cs, rows, 3, 7, col, cmul_base(l, c) + u / per);
    assert(0 <= u / per) by {
        if per == 2 {
            assert(0 <= u / 2);
        } else {
            assert(0 <= u / 3);
        }
    }
    assert(1 * (u / per) == u / per);
    lemma_packed_cell(l, r1cs, merge, b, GateKind::CMul, u / per, 0, col);
}

/// Every signal that a one-row gate places is in its cell of a packed trace: polynomial
/// evaluations, FFTs and value selectors.
pub proof fn law_packed_single_row(
    l: Layout,
    r1cs: R1csFile,
    merge: bool,
    b: nat,
    kind: GateKind,
    u: int,
    k: int,
)
    requires
        packable(l, r1cs, merge),
        is_n_bits(used_rows(l, r1cs, merge), b),
        kind is EvPol4 || kind is Fft4 || kind is Sel,
        0 <= u < single_row_uses(r1cs, kind).len(),
        0 <= k < single_row_width(kind),
    ensures
        packed_placing(
            l,
            r1cs,
            merge,
            vstd::arithmetic::power2::pow2(b) as int,
        ).cells[k][kind_base(l, counts_of(r1cs), kind) + u] == single_row_uses(
            r1cs,
            kind,
        )[u].signals@[k] as u32,
        0 <= kind_base(l, counts_of(r1cs), kind) + u < vstd::arithmetic::power2::pow2(b),
        k < l.spec_committed_pols(),
{
    let rows = vstd::arithmetic::power2::pow2(b) as int;
    let c = counts_of(r1cs);
    let cols = l.spec_committed_pols();
    let uses = single_row_uses(r1cs, kind);
    let width = single_row_width(kind);
    lemma_ready_to_place(l, r1cs, merge, b);
    lemma_starts(l, r1cs, rows);
    lemma_bases(l, c);
    l.lemma_tiers();
    let stage: int = match kind {
        GateKind::EvPol4 => 4,
        GateKind::Fft4 => 5,
        _ => 7,
    };
    lemma_stage(l, r1cs, rows, stage - 1);
    let bs = flat_blocks(width as usize);
    lemma_uses_cell(
        cells_after(l, r1cs, rows, stage - 1),
        cols,
        rows,
        start_of(l, r1cs, stage - 1),
        1,
        bs,
        uses,
        uses.len(),
        width,
        u,
        0,
        k,
    );
    lemma_stage_stays(l, r1cs, rows, stage, 7, k, kind_base(l, c, kind) + u);
    lemma_packed_cell(l, r1cs, merge, b, kind, u, 0, k);
}

/// The uses of a one-row gate.
pub open spec fn single_row_uses(r1cs: R1csFile, kind: GateKind) -> Seq<CustomGateUse> {
    match kind {
        GateKind::EvPol4 => role_uses(r1cs, GateRole::EvPol4),
        GateKind::Fft4 => fft4_uses(r1cs),
        _ => role_uses(r1cs, GateRole::SelectVal1),
    }
}

/// The signals that a one-row gate places.
pub open spec fn single_row_width(kind: GateKind) -> int {
    match kind {
        GateKind::EvPol4 => 21,
        GateKind::Fft4 => 24,
        _ => 22,
    }
}

/// Every signal of every tree selector is in its cell of a packed trace.
pub proof fn law_packed_tree(
    l: Layout,
    r1cs: R1csFile,
    merge: bool,
    b: nat,
    u: int,
    i: int,
    k: int,
)
    requires
        packable(l, r1cs, merge),
        is_n_bits(used_rows(l, r1cs, merge), b),
        0 <= u < role_uses(r1cs, GateRole::TreeSelector).len(),
        0 <= i < l.spec_tree_blocks().len(),
        0 <= k < l.spec_tree_blocks()[i].n,
    ensures
        ({
            let block = l.spec_tree_blocks()[i];
            packed_placing(
                l,
                r1cs,
                merge,
                vstd::arithmetic::power2::pow2(b) as int,
            ).cells[block.col + k][tree_base(l, counts_of(r1cs)) + l.spec_tree_rows() * u
                + block.off] == role_uses(r1cs, GateRole::TreeSelector)[u].signals@[block.sig
                + k] as u32
        }),
        ({
            let block = l.spec_tree_blocks()[i];
            let row = tree_base(l, counts_of(r1cs)) + l.spec_tree_rows() * u + block.off;
            &&& 0 <= row < vstd::arithmetic::power2::pow2(b)
            &&& block.col + k < l.spec_committed_pols()
        }),
{
    let rows = vstd::arithmetic::power2::pow2(b) as int;
    let c = counts_of(r1cs);
    let cols = l.spec_committed_pols();
    let h = l.spec_tree_rows();
    let bs = l.spec_tree_blocks();
    let uses = role_uses(r1cs, GateRole::TreeSelector);
    lemma_ready_to_place(l, r1cs, merge, b);
    lemma_starts(l, r1cs, rows);
    lemma_bases(l, c);
    l.lemma_tree_blocks();
    assert(block_fits(bs[i], cols, h, l.spec_tree_signals()));
    lemma_stage(l, r1cs, rows, 5);
    lemma_uses_cell(
        cells_after(l, r1cs, rows, 5),
        cols,
        rows,
        tree_base(l, c),
        h,
        bs,
        uses,
        uses.len(),
        l.spec_tree_signals(),
        u,
        i,
        k,
    );
    lemma_row_in_gate(h, u, uses.len() as int, bs[i].off as int);
    lemma_stage_stays(
        l,
        r1cs,
        rows,
        6,
        7,
        bs[i].col + k,
        tree_base(l, c) + h * u + bs[i].off,
    );
    assert(some_covers(bs, bs[i].off as int, bs[i].col + k));
    lemma_packed_cell(l, r1cs, merge, b, GateKind::Tree, u, bs[i].off as int, bs[i].col + k);
}

proof fn lemma_row_values(coefs: Seq<Seq<u64>>, rows: int, row: int, vals: Seq<u64>, n: nat)
    requires
        is_table(coefs, 10, rows),
        0 <= row < rows,
        n <= 10,
        vals.len() == 10,
    ensures
        is_table(with_row(coefs, row, vals, n), 10, rows),
        forall|k: int, r: int|
            #![trigger with_row(coefs, row, vals, n)[k][r]]
            0 <= k < 10 && 0 <= r < rows ==> with_row(coefs, row, vals, n)[k][r] == if r == row && k
                < n {
                vals[k]
            } else {
                coefs[k][r]
            },
    decreases n,
{
    lemma_row_table(coefs, rows, row, vals, n);
    if n > 0 {
        lemma_row_values(coefs, rows, row, vals, (n - 1) as nat);
    }
}

proof fn lemma_fft_coefs(
    coefs: Seq<Seq<u64>>,
    rows: int,
    base: int,
    gates: Seq<CustomGate>,
    uses: Seq<CustomGateUse>,
    n: nat,
    k: int,
    r: int,
)
    requires
        is_table(coefs, 10, rows),
        0 <= base,
        base + n <= rows,
        n <= uses.len(),
        0 <= k < 10,
        0 <= r < rows,
    ensures
        with_ffts(coefs, base, gates, uses, n)[k][r] == if base <= r < base + n {
            fft4_coefs(gates[uses[r - base].id as int].parameters@)[k]
        } else {
            coefs[k][r]
        },
    decreases n,
{
    if n > 0 {
        let m = (n - 1) as nat;
        lemma_fft_coefs(coefs, rows, base, gates, uses, m, k, r);
        lemma_coefs_table(coefs, rows, base, gates, uses, m);
        lemma_row_values(
            with_ffts(coefs, base, gates, uses, m),
            rows,
            base + n - 1,
            fft4_coefs(gates[uses[n - 1].id as int].parameters@),
            10,
        );
    }
}

/// A row of a custom gate that offers no gates keeps its coefficients: those of its FFT, or zero.
pub proof fn law_packed_idle_coefs(l: Layout, r1cs: R1csFile, merge: bool, b: nat, row: int, k: int)
    requires
        packable(l, r1cs, merge),
        is_n_bits(used_rows(l, r1cs, merge), b),
        0 <= row < custom_rows(l, counts_of(r1cs)),
        forall|t: int| !#[trigger] offered(l, counts_of(r1cs), row, t),
        0 <= k < 10,
    ensures
        row < vstd::arithmetic::power2::pow2(b),
        packed_placing(l, r1cs, merge, vstd::arithmetic::power2::pow2(b) as int).coefs[k][row]
            == if fft_base(l, counts_of(r1cs)) <= row < tree_base(l, counts_of(r1cs)) {
            fft4_coefs(
                r1cs.custom_gates@[fft4_uses(r1cs)[row - fft_base(
                    l,
                    counts_of(r1cs),
                )].id as int].parameters@,
            )[k]
        } else {
            0
        },
{
    let rows = vstd::arithmetic::power2::pow2(b) as int;
    let c = counts_of(r1cs);
    lemma_ready_to_place(l, r1cs, merge, b);
    lemma_bases(l, c);
    lemma_counts(r1cs);
    let st = custom_placing(l, r1cs, rows);
    let cs = packed_constraints(r1cs, merge);
    assert forall|i: int, j: int|
        0 <= i < st.queues.len() && 0 <= j < st.queues[i].len() implies #[trigger] st.queues[i][j]
        != row by {
        lemma_queue_entries(l, c, i, j);
    }
    law_idle_coefs_stay(
        l.spec_tiers(),
        l.spec_pure_tier(),
        st,
        cs,
        cs.len(),
        l.spec_committed_pols(),
        rows,
        l.gates(),
        l.split(),
        k,
        row,
    );
    lemma_filled_table(10, rows, 0u64);
    lemma_fft_coefs(
        filled(10, rows, 0u64),
        rows,
        fft_base(l, c),
        r1cs.custom_gates@,
        fft4_uses(r1cs),
        fft4_uses(r1cs).len(),
        k,
        row,
    );
}

/// The cells and coefficients of a packed trace are tables.
pub proof fn lemma_packed_tables(l: Layout, r1cs: R1csFile, merge: bool, b: nat)
    requires
        packable(l, r1cs, merge),
        is_n_bits(used_rows(l, r1cs, merge), b),
    ensures
        ({
            let rows = vstd::arithmetic::power2::pow2(b) as int;
            let st = packed_placing(l, r1cs, merge, rows);
            is_table(st.cells, l.spec_committed_pols(), rows) && is_table(st.coefs, 10, rows)
        }),
{
    let rows = vstd::arithmetic::power2::pow2(b) as int;
    lemma_ready_to_place(l, r1cs, merge, b);
    lemma_placed_tables(
        l.spec_tiers(),
        l.spec_pure_tier(),
        custom_placing(l, r1cs, rows),
        packed_constraints(r1cs, merge),
        l.spec_committed_pols(),
        rows,
        l.gates(),
        l.split(),
    );
}

} // verus!
