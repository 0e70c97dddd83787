//! The execution buffer: how to fill a witness, as a list of 64-bit words.
//!
//! The words are the number of additions, the number of rows, the additions (left, right, left
//! coefficient, right coefficient), and the placed signal ids row by row.
use vstd::prelude::*;

use crate::plonk2pil::grid::grid;
use crate::plonk2pil::to_plonk::PlonkAddition;

verus! {

/// The first `n` additions, flattened.
pub open spec fn flat_additions(adds: Seq<PlonkAddition>, n: nat) -> Seq<u64>
    decreases n,
{
    if n == 0 {
        Seq::empty()
    } else {
        flat_additions(adds, (n - 1) as nat) + adds[n - 1]@
    }
}

/// The first `n` cells of row `r`.
pub open spec fn flat_row(g: Seq<Seq<u32>>, r: int, n: nat) -> Seq<u64> {
    Seq::new(n, |c: int| g[c][r] as u64)
}

/// The first `n` rows, flattened.
pub open spec fn flat_rows(g: Seq<Seq<u32>>, n: nat) -> Seq<u64>
    decreases n,
{
    if n == 0 {
        Seq::empty()
    } else {
        flat_rows(g, (n - 1) as nat) + flat_row(g, n - 1, g.len())
    }
}

/// The number of rows: the length of the first column.
pub open spec fn n_rows(g: Seq<Seq<u32>>) -> nat {
    if g.len() > 0 {
        g[0].len()
    } else {
        0
    }
}

/// The words of the execution buffer.
pub open spec fn exec_words(adds: Seq<PlonkAddition>, g: Seq<Seq<u32>>) -> Seq<u64> {
    seq![adds.len() as u64, n_rows(g) as u64] + flat_additions(adds, adds.len()) + flat_rows(
        g,
        n_rows(g),
    )
}

/// No column is shorter than the first.
pub open spec fn columns_reach(g: Seq<Seq<u32>>) -> bool {
    forall|c: int| 0 <= c < g.len() ==> (#[trigger] g[c]).len() >= n_rows(g)
}

/// Serialize additions and signal map into an execution buffer.
pub fn write_exec_file(adds: &[PlonkAddition], s_map: &Vec<Vec<u32>>) -> (r: Vec<u64>)
    requires
        columns_reach(grid(s_map@)),
    ensures
        r@ == exec_words(adds@, grid(s_map@)),
{
    let ghost g = grid(s_map@);
    let n_cols: usize = s_map.len();
    let rows: usize = if n_cols > 0 {
        s_map[0].len()
    } else {
        0
    };
    let mut buff: Vec<u64> = Vec::new();
    buff.push(adds.len() as u64);
    buff.push(rows as u64);
    let ghost head = seq![adds@.len() as u64, n_rows(g) as u64];
    assert(buff@ =~= head + flat_additions(adds@, 0));
    let mut i: usize = 0;
    while i < adds.len()
        invariant
            i <= adds@.len(),
            buff@ == head + flat_additions(adds@, i as nat),
        decreases adds@.len() - i,
    {
        let ghost before = buff@;
        buff.push(adds[i][0]);
        buff.push(adds[i][1]);
        buff.push(adds[i][2]);
        buff.push(adds[i][3]);
        i = i + 1;
        proof {
            assert(buff@ =~= before + adds@[i - 1]@);
            assert(buff@ =~= head + flat_additions(adds@, i as nat));
        }
    }
    let ghost front = buff@;
    let mut row: usize = 0;
    assert(buff@ =~= front + flat_rows(g, 0));
    while row < rows
        invariant
            row <= rows,
            rows == n_rows(g),
            g == grid(s_map@),
            n_cols == s_map@.len(),
            columns_reach(g),
            buff@ == front + flat_rows(g, row as nat),
        decreases rows - row,
    {
        let ghost before = buff@;
        let mut c: usize = 0;
        assert(buff@ =~= before + flat_row(g, row as int, 0));
        while c < n_cols
            invariant
                c <= n_cols,
                row < rows,
                rows == n_rows(g),
                g == grid(s_map@),
                n_cols == s_map@.len(),
                columns_reach(g),
                buff@ == before + flat_row(g, row as int, c as nat),
            decreases n_cols - c,
        {
            assert(g[c as int].len() >= n_rows(g));
            buff.push(s_map[c][row] as u64);
            c = c + 1;
            assert(flat_row(g, row as int, c as nat) =~= flat_row(
                g,
                row as int,
                (c - 1) as nat,
            ).push(g[c - 1][row as int] as u64));
            assert(buff@ =~= before + flat_row(g, row as int, c as nat));
        }
        row = row + 1;
        assert(buff@ =~= front + flat_rows(g, row as nat));
    }
    buff
}

proof fn lemma_flat_additions(adds: Seq<PlonkAddition>, n: nat, i: int, k: int)
    requires
        0 <= i < n <= adds.len(),
        0 <= k < 4,
    ensures
        flat_additions(adds, n).len() == 4 * n,
        flat_additions(adds, n)[4 * i + k] == adds[i][k],
    decreases n,
{
    assert(flat_additions(adds, 0).len() == 0);
    assert(adds[n - 1]@.len() == 4);
    if i < n - 1 {
        lemma_flat_additions(adds, (n - 1) as nat, i, k);
    } else if n > 1 {
        lemma_flat_additions(adds, (n - 1) as nat, 0, 0);
    }
}

proof fn lemma_flat_rows(g: Seq<Seq<u32>>, n: nat, r: int, c: int)
    requires
        0 <= r < n,
        0 <= c < g.len(),
    ensures
        flat_rows(g, n).len() == g.len() * n,
        0 <= g.len() * r + c < g.len() * n,
        flat_rows(g, n)[g.len() * r + c] == g[c][r],
    decreases n,
{
    let cols = g.len() as int;
    assert(cols * n == cols * (n - 1) + cols) by (nonlinear_arith);
    assert(0 <= cols * r) by (nonlinear_arith)
        requires
            cols >= 0,
            r >= 0,
    ;
    assert(flat_rows(g, 0).len() == 0);
    assert(flat_row(g, n - 1, g.len())[c] == g[c][n - 1] as u64);
    if r < n - 1 {
        lemma_flat_rows(g, (n - 1) as nat, r, c);
    } else {
        if n > 1 {
            lemma_flat_rows(g, (n - 1) as nat, 0, c);
        } else {
            assert(cols * 0 == 0) by (nonlinear_arith);
        }
        assert(flat_rows(g, (n - 1) as nat).len() == cols * r);
    }
}

/// The size of the buffer can be read off its first two words and the number of columns.
pub proof fn law_exec_size(adds: Seq<PlonkAddition>, g: Seq<Seq<u32>>)
    requires
        adds.len() <= u64::MAX,
        n_rows(g) <= u64::MAX,
    ensures
        exec_words(adds, g).len() == 2 + 4 * exec_words(adds, g)[0] + exec_words(adds, g)[1]
            * g.len(),
{
    let rows = n_rows(g);
    let cols = g.len();
    if adds.len() > 0 {
        lemma_flat_additions(adds, adds.len(), 0, 0);
    }
    if rows > 0 {
        lemma_flat_rows(g, rows, 0, 0);
    }
    assert(cols * rows == rows * cols) by (nonlinear_arith);
    assert(0 * cols == 0) by (nonlinear_arith);
    assert(exec_words(adds, g)[0] == adds.len());
    assert(exec_words(adds, g)[1] == rows);
}

/// Every addition can be read back from the buffer.
pub proof fn law_exec_additions(adds: Seq<PlonkAddition>, g: Seq<Seq<u32>>, i: int, k: int)
    requires
        0 <= i < adds.len(),
        0 <= k < 4,
    ensures
        exec_words(adds, g)[2 + 4 * i + k] == adds[i][k],
{
    lemma_flat_additions(adds, adds.len(), i, k);
}

/// Every placed cell can be read back from the buffer.
pub proof fn law_exec_cells(adds: Seq<PlonkAddition>, g: Seq<Seq<u32>>, r: int, c: int)
    requires
        0 <= r < n_rows(g),
        0 <= c < g.len(),
    ensures
        exec_words(adds, g)[2 + 4 * adds.len() + (g.len() * r + c)] == g[c][r],
{
    if adds.len() > 0 {
        lemma_flat_additions(adds, adds.len(), 0, 0);
    }
    lemma_flat_rows(g, n_rows(g), r, c);
}

} // verus!
