//! Column-major tables of cells.
use vstd::prelude::*;

verus! {

/// The cells of a table held as columns.
pub open spec fn grid<T>(m: Seq<Vec<T>>) -> Seq<Seq<T>> {
    Seq::new(m.len(), |c: int| m[c]@)
}

/// The table has `cols` columns of `rows` cells.
pub open spec fn is_table<T>(g: Seq<Seq<T>>, cols: int, rows: int) -> bool {
    g.len() == cols && forall|c: int| 0 <= c < cols ==> (#[trigger] g[c]).len() == rows
}

/// The table with one cell changed.
pub open spec fn with_cell<T>(g: Seq<Seq<T>>, c: int, r: int, v: T) -> Seq<Seq<T>> {
    g.update(c, g[c].update(r, v))
}

/// Change one cell.
pub fn set_cell<T>(m: &mut Vec<Vec<T>>, c: usize, r: usize, v: T)
    requires
        c < old(m)@.len(),
        r < old(m)@[c as int]@.len(),
    ensures
        grid(final(m)@) == with_cell(grid(old(m)@), c as int, r as int, v),
{
    m[c][r] = v;
    assert(grid(m@) =~= with_cell(grid(old(m)@), c as int, r as int, v));
}

/// A table of `cols` columns of `rows` cells that all hold `v`.
pub open spec fn filled<T>(cols: int, rows: int, v: T) -> Seq<Seq<T>> {
    Seq::new(cols as nat, |c: int| Seq::new(rows as nat, |r: int| v))
}

/// A table of signal ids, all zero.
pub fn zero_ids(cols: usize, rows: usize) -> (m: Vec<Vec<u32>>)
    ensures
        grid(m@) == filled(cols as int, rows as int, 0u32),
{
    let mut m: Vec<Vec<u32>> = Vec::new();
    let mut c: usize = 0;
    while c < cols
        invariant
            c <= cols,
            m@.len() == c,
            forall|k: int| 0 <= k < c ==> #[trigger] m@[k]@ == Seq::new(rows as nat, |r: int| 0u32),
        decreases cols - c,
    {
        let col: Vec<u32> = vec![0u32; rows];
        assert(col@ =~= Seq::new(rows as nat, |r: int| 0u32));
        m.push(col);
        c = c + 1;
    }
    assert(grid(m@) =~= filled(cols as int, rows as int, 0u32));
    m
}

/// A table of field elements, all zero.
pub fn zero_values(cols: usize, rows: usize) -> (m: Vec<Vec<u64>>)
    ensures
        grid(m@) == filled(cols as int, rows as int, 0u64),
{
    let mut m: Vec<Vec<u64>> = Vec::new();
    let mut c: usize = 0;
    while c < cols
        invariant
            c <= cols,
            m@.len() == c,
            forall|k: int| 0 <= k < c ==> #[trigger] m@[k]@ == Seq::new(rows as nat, |r: int| 0u64),
        decreases cols - c,
    {
        let col: Vec<u64> = vec![0u64; rows];
        assert(col@ =~= Seq::new(rows as nat, |r: int| 0u64));
        m.push(col);
        c = c + 1;
    }
    assert(grid(m@) =~= filled(cols as int, rows as int, 0u64));
    m
}

} // verus!
