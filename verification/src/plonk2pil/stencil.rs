//! Where the signals of a custom gate go: runs of consecutive columns.
use vstd::prelude::*;

use crate::plonk2pil::grid::{grid, is_table, set_cell, with_cell};
use crate::plonk2pil::placer::{lemma_grid_table, lemma_table_cell};
use crate::plonk2pil::r1cs::CustomGateUse;

verus! {

/// `n` consecutive signals from `sig` on, placed into `n` consecutive columns from `col` on, in
/// the row `off` after the first row of a gate.
#[derive(Clone, Copy, PartialEq, Eq, Structural, Debug)]
pub struct Block {
    pub n: usize,
    pub col: usize,
    pub off: usize,
    pub sig: usize,
}

/// The first `n` signals of a block placed.
pub open spec fn with_block(
    g: Seq<Seq<u32>>,
    row: int,
    signals: Seq<u64>,
    b: Block,
    n: nat,
) -> Seq<Seq<u32>>
    decreases n,
{
    if n == 0 {
        g
    } else {
        with_cell(
            with_block(g, row, signals, b, (n - 1) as nat),
            b.col + n - 1,
            row + b.off,
            signals[b.sig + n - 1] as u32,
        )
    }
}

/// The first `n` blocks placed.
pub open spec fn with_blocks(
    g: Seq<Seq<u32>>,
    row: int,
    signals: Seq<u64>,
    bs: Seq<Block>,
    n: nat,
) -> Seq<Seq<u32>>
    decreases n,
{
    if n == 0 {
        g
    } else {
        with_block(
            with_blocks(g, row, signals, bs, (n - 1) as nat),
            row,
            signals,
            bs[n - 1],
            bs[n - 1].n as nat,
        )
    }
}

/// The first `n` uses placed, one every `height` rows from `base` on.
pub open spec fn with_uses(
    g: Seq<Seq<u32>>,
    base: int,
    height: int,
    bs: Seq<Block>,
    uses: Seq<CustomGateUse>,
    n: nat,
) -> Seq<Seq<u32>>
    decreases n,
{
    if n == 0 {
        g
    } else {
        with_blocks(
            with_uses(g, base, height, bs, uses, (n - 1) as nat),
            base + height * (n - 1),
            uses[n - 1].signals@,
            bs,
            bs.len(),
        )
    }
}

/// The block stays inside `cols` columns, `height` rows and `n_signals` signals.
pub open spec fn block_fits(b: Block, cols: int, height: int, n_signals: int) -> bool {
    b.col + b.n <= cols && b.off < height && b.sig + b.n <= n_signals
}

pub open spec fn blocks_fit(bs: Seq<Block>, cols: int, height: int, n_signals: int) -> bool {
    forall|i: int| 0 <= i < bs.len() ==> block_fits(#[trigger] bs[i], cols, height, n_signals)
}

pub proof fn lemma_block_table(
    g: Seq<Seq<u32>>,
    cols: int,
    rows: int,
    row: int,
    signals: Seq<u64>,
    b: Block,
    n: nat,
)
    requires
        is_table(g, cols, rows),
        n <= b.n,
        b.col + b.n <= cols,
        0 <= row + b.off < rows,
    ensures
        is_table(with_block(g, row, signals, b, n), cols, rows),
    decreases n,
{
    if n > 0 {
        lemma_block_table(g, cols, rows, row, signals, b, (n - 1) as nat);
        lemma_table_cell(
            with_block(g, row, signals, b, (n - 1) as nat),
            cols,
            rows,
            b.col + n - 1,
            row + b.off,
            signals[b.sig + n - 1] as u32,
        );
    }
}

pub proof fn lemma_blocks_table(
    g: Seq<Seq<u32>>,
    cols: int,
    rows: int,
    row: int,
    height: int,
    signals: Seq<u64>,
    bs: Seq<Block>,
    n: nat,
)
    requires
        is_table(g, cols, rows),
        n <= bs.len(),
        blocks_fit(bs, cols, height, signals.len() as int),
        0 <= row,
        row + height <= rows,
    ensures
        is_table(with_blocks(g, row, signals, bs, n), cols, rows),
    decreases n,
{
    if n > 0 {
        lemma_blocks_table(g, cols, rows, row, height, signals, bs, (n - 1) as nat);
        assert(block_fits(bs[n - 1], cols, height, signals.len() as int));
        lemma_block_table(
            with_blocks(g, row, signals, bs, (n - 1) as nat),
            cols,
            rows,
            row,
            signals,
            bs[n - 1],
            bs[n - 1].n as nat,
        );
    }
}

/// Place one block.
fn place_block(
    s_map: &mut Vec<Vec<u32>>,
    row: usize,
    signals: &Vec<u64>,
    b: &Block,
    Ghost(cols): Ghost<int>,
    Ghost(rows): Ghost<int>,
)
    requires
        is_table(grid(old(s_map)@), cols, rows),
        b.col + b.n <= cols,
        row + b.off < rows <= usize::MAX,
        b.sig + b.n <= signals@.len(),
    ensures
        grid(final(s_map)@) == with_block(
            grid(old(s_map)@),
            row as int,
            signals@,
            *b,
            b.n as nat,
        ),
{
    let n_cols: usize = s_map.len();
    let n_signals: usize = signals.len();
    proof {
        lemma_grid_table(s_map@, cols, rows);
    }
    let mut i: usize = 0;
    while i < b.n
        invariant
            i <= b.n,
            n_cols == cols,
            n_signals == signals@.len(),
            is_table(grid(s_map@), cols, rows),
            b.col + b.n <= cols,
            row + b.off < rows <= usize::MAX,
            b.sig + b.n <= signals@.len(),
            grid(s_map@) == with_block(grid(old(s_map)@), row as int, signals@, *b, i as nat),
        decreases b.n - i,
    {
        proof {
            lemma_grid_table(s_map@, cols, rows);
            lemma_table_cell(
                grid(s_map@),
                cols,
                rows,
                b.col + i,
                row + b.off,
                signals@[b.sig + i] as u32,
            );
        }
        set_cell(s_map, b.col + i, row + b.off, signals[b.sig + i] as u32);
        i = i + 1;
    }
}

/// Place all blocks of one use.
pub(crate) fn place_blocks(
    s_map: &mut Vec<Vec<u32>>,
    row: usize,
    signals: &Vec<u64>,
    bs: &Vec<Block>,
    Ghost(cols): Ghost<int>,
    Ghost(rows): Ghost<int>,
    Ghost(height): Ghost<int>,
)
    requires
        is_table(grid(old(s_map)@), cols, rows),
        blocks_fit(bs@, cols, height, signals@.len() as int),
        row + height <= rows <= usize::MAX,
    ensures
        grid(final(s_map)@) == with_blocks(
            grid(old(s_map)@),
            row as int,
            signals@,
            bs@,
            bs@.len(),
        ),
        is_table(grid(final(s_map)@), cols, rows),
{
    let ghost g = grid(s_map@);
    let mut i: usize = 0;
    while i < bs.len()
        invariant
            i <= bs@.len(),
            is_table(g, cols, rows),
            blocks_fit(bs@, cols, height, signals@.len() as int),
            row + height <= rows <= usize::MAX,
            grid(s_map@) == with_blocks(g, row as int, signals@, bs@, i as nat),
        decreases bs@.len() - i,
    {
        proof {
            lemma_blocks_table(g, cols, rows, row as int, height, signals@, bs@, i as nat);
            assert(block_fits(bs@[i as int], cols, height, signals@.len() as int));
        }
        place_block(s_map, row, signals, &bs[i], Ghost(cols), Ghost(rows));
        i = i + 1;
    }
    proof {
        lemma_blocks_table(g, cols, rows, row as int, height, signals@, bs@, bs@.len());
    }
}

/// Every use has the signals that the blocks need.
pub open spec fn uses_wide(uses: Seq<CustomGateUse>, n_signals: int) -> bool {
    forall|i: int| 0 <= i < uses.len() ==> (#[trigger] uses[i]).signals@.len() >= n_signals
}

/// Place all uses, one every `height` rows from `base` on; returns the row after the last.
pub(crate) fn place_uses(
    s_map: &mut Vec<Vec<u32>>,
    base: usize,
    height: usize,
    bs: &Vec<Block>,
    uses: &Vec<&CustomGateUse>,
    Ghost(cols): Ghost<int>,
    Ghost(rows): Ghost<int>,
    Ghost(n_signals): Ghost<int>,
) -> (end: usize)
    requires
        is_table(grid(old(s_map)@), cols, rows),
        blocks_fit(bs@, cols, height as int, n_signals),
        uses_wide(uses@.unref(), n_signals),
        base + height * uses@.len() <= rows <= usize::MAX,
    ensures
        grid(final(s_map)@) == with_uses(
            grid(old(s_map)@),
            base as int,
            height as int,
            bs@,
            uses@.unref(),
            uses@.len(),
        ),
        is_table(grid(final(s_map)@), cols, rows),
        end == base + height * uses@.len(),
{
    let ghost g = grid(s_map@);
    let mut row: usize = base;
    let mut i: usize = 0;
    assert(height * 0 == 0) by (nonlinear_arith);
    while i < uses.len()
        invariant
            i <= uses@.len(),
            is_table(grid(s_map@), cols, rows),
            blocks_fit(bs@, cols, height as int, n_signals),
            uses_wide(uses@.unref(), n_signals),
            base + height * uses@.len() <= rows <= usize::MAX,
            row == base + height * i,
            grid(s_map@) == with_uses(
                g,
                base as int,
                height as int,
                bs@,
                uses@.unref(),
                i as nat,
            ),
        decreases uses@.len() - i,
    {
        proof {
            let n = uses@.len() as int;
            assert(height * i + height <= height * n) by (nonlinear_arith)
                requires
                    i + 1 <= n,
                    height >= 0,
            ;
            assert(height * (i + 1) == height * i + height) by (nonlinear_arith);
            let u = uses@.unref();
            assert(u[i as int] == *uses@[i as int]);
            assert(u[i as int].signals@.len() >= n_signals);
            assert(blocks_fit(bs@, cols, height as int, uses@[i as int].signals@.len() as int))
                by {
                assert forall|x: int| 0 <= x < bs@.len() implies block_fits(
                    #[trigger] bs@[x],
                    cols,
                    height as int,
                    uses@[i as int].signals@.len() as int,
                ) by {
                    assert(block_fits(bs@[x], cols, height as int, n_signals));
                }
            }
        }
        place_blocks(
            s_map,
            row,
            &uses[i].signals,
            bs,
            Ghost(cols),
            Ghost(rows),
            Ghost(height as int),
        );
        row = row + height;
        i = i + 1;
    }
    row
}

/// Two blocks share no cell.
pub open spec fn blocks_apart(a: Block, b: Block) -> bool {
    a.off != b.off || a.col + a.n <= b.col || b.col + b.n <= a.col
}

/// No two blocks share a cell.
pub open spec fn all_apart(bs: Seq<Block>) -> bool {
    forall|i: int, j: int|
        0 <= i < bs.len() && 0 <= j < bs.len() && i != j ==> blocks_apart(
            #[trigger] bs[i],
            #[trigger] bs[j],
        )
}

pub proof fn lemma_block_cell(
    g: Seq<Seq<u32>>,
    cols: int,
    rows: int,
    row: int,
    signals: Seq<u64>,
    b: Block,
    n: nat,
    col: int,
    r: int,
)
    requires
        is_table(g, cols, rows),
        n <= b.n,
        b.col + b.n <= cols,
        0 <= row + b.off < rows,
        0 <= col < cols,
        0 <= r < rows,
    ensures
        with_block(g, row, signals, b, n)[col][r] == if r == row + b.off && b.col <= col < b.col + n {
            signals[b.sig + (col - b.col)] as u32
        } else {
            g[col][r]
        },
    decreases n,
{
    if n > 0 {
        lemma_block_cell(g, cols, rows, row, signals, b, (n - 1) as nat, col, r);
        lemma_block_table(g, cols, rows, row, signals, b, (n - 1) as nat);
        let h = with_block(g, row, signals, b, (n - 1) as nat);
        assert(h[col].len() == rows);
        assert(h[b.col + n - 1].len() == rows);
    }
}

/// Cells outside all blocks keep their value.
pub proof fn lemma_blocks_elsewhere(
    g: Seq<Seq<u32>>,
    cols: int,
    rows: int,
    row: int,
    height: int,
    signals: Seq<u64>,
    bs: Seq<Block>,
    n: nat,
    col: int,
    r: int,
)
    requires
        is_table(g, cols, rows),
        n <= bs.len(),
        blocks_fit(bs, cols, height, signals.len() as int),
        0 <= row,
        row + height <= rows,
        0 <= col < cols,
        0 <= r < rows,
        forall|i: int|
            0 <= i < n ==> !(r == row + (#[trigger] bs[i]).off && bs[i].col <= col < bs[i].col
                + bs[i].n),
    ensures
        with_blocks(g, row, signals, bs, n)[col][r] == g[col][r],
    decreases n,
{
    if n > 0 {
        let m = (n - 1) as nat;
        lemma_blocks_elsewhere(g, cols, rows, row, height, signals, bs, m, col, r);
        lemma_blocks_table(g, cols, rows, row, height, signals, bs, m);
        assert(block_fits(bs[n - 1], cols, height, signals.len() as int));
        lemma_block_cell(
            with_blocks(g, row, signals, bs, m),
            cols,
            rows,
            row,
            signals,
            bs[n - 1],
            bs[n - 1].n as nat,
            col,
            r,
        );
        assert(!(r == row + bs[n - 1].off && bs[n - 1].col <= col < bs[n - 1].col + bs[n - 1].n));
    }
}

/// Where no two blocks share a cell, every signal of every block is found in its cell.
pub proof fn law_signals_placed(
    g: Seq<Seq<u32>>,
    cols: int,
    rows: int,
    row: int,
    height: int,
    signals: Seq<u64>,
    bs: Seq<Block>,
    n: nat,
    i: int,
    k: int,
)
    requires
        is_table(g, cols, rows),
        n <= bs.len(),
        blocks_fit(bs, cols, height, signals.len() as int),
        all_apart(bs),
        0 <= row,
        row + height <= rows,
        0 <= i < n,
        0 <= k < bs[i].n,
    ensures
        with_blocks(g, row, signals, bs, n)[bs[i].col + k][row + bs[i].off] == signals[bs[i].sig
            + k] as u32,
    decreases n,
{
    let m = (n - 1) as nat;
    let b = bs[n - 1];
    let h = with_blocks(g, row, signals, bs, m);
    let col = bs[i].col + k;
    let r = row + bs[i].off;
    assert(block_fits(bs[i], cols, height, signals.len() as int));
    assert(block_fits(b, cols, height, signals.len() as int));
    lemma_blocks_table(g, cols, rows, row, height, signals, bs, m);
    lemma_block_cell(h, cols, rows, row, signals, b, b.n as nat, col, r);
    if i < n - 1 {
        law_signals_placed(g, cols, rows, row, height, signals, bs, m, i, k);
        assert(blocks_apart(bs[i], bs[n - 1]));
    }
}

} // verus!
