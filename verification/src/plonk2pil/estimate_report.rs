//! Reports on estimated cells. A share of a whole is floating point, so its text is given.
use vstd::prelude::*;
use vstd::string::StringExecFns;

use crate::exps::emit::texts;
use crate::plonk2pil::estimate::{CellComparison, CellEstimate, ComponentCells};
use crate::text::{chars_of, dec, dec_text, push_dec};

verus! {

/// `n` blanks.
pub open spec fn blanks(n: int) -> Seq<char> {
    Seq::new(
        if n > 0 {
            n as nat
        } else {
            0
        },
        |i: int| ' ',
    )
}

/// A text filled up to a width on its right.
pub open spec fn filled_right(s: Seq<char>, width: int) -> Seq<char> {
    s + blanks(width - s.len())
}

/// A text filled up to a width on its left.
pub open spec fn filled_left(s: Seq<char>, width: int) -> Seq<char> {
    blanks(width - s.len()) + s
}

/// The line of a component: its name, count, cells per unit and cells in columns, and its share.
pub open spec fn component_line(c: ComponentCells, share: Seq<char>) -> Seq<char> {
    "  "@ + filled_right(c.name@, 21) + " count="@ + filled_left(dec(c.count as nat), 9)
        + "  cells/unit="@ + filled_left(dec(c.cells_per as nat), 4) + "  cells="@ + filled_left(
        dec(c.cells as nat),
        11,
    ) + "  ("@ + share + "%)\n"@
}

/// The lines of the first `n` components.
pub open spec fn component_lines(cs: Seq<ComponentCells>, shares: Seq<Seq<char>>, n: nat) -> Seq<
    char,
>
    decreases n,
{
    if n == 0 {
        Seq::empty()
    } else {
        component_lines(cs, shares, (n - 1) as nat) + component_line(cs[n - 1], shares[n - 1])
    }
}

/// The report on an estimate.
pub open spec fn estimate_text(e: CellEstimate, shares: Seq<Seq<char>>) -> Seq<char> {
    "cells_used = "@ + dec(e.total_cells as nat) + "\n"@ + component_lines(
        e.components@,
        shares,
        e.components@.len(),
    )
}

fn push_blanks(out: &mut String, n: usize)
    ensures
        final(out)@ == old(out)@ + blanks(n as int),
{
    let ghost before = out@;
    let mut i: usize = 0;
    assert(before + blanks(0) =~= before);
    while i < n
        invariant
            i <= n,
            out@ == before + blanks(i as int),
        decreases n - i,
    {
        out.push(' ');
        i = i + 1;
        assert(out@ =~= before + blanks(i as int));
    }
}

fn push_column(out: &mut String, n: u64, width: usize)
    ensures
        final(out)@ == old(out)@ + filled_left(dec(n as nat), width as int),
{
    let s: String = dec_text(n);
    let len: usize = chars_of(s.as_str()).len();
    let ghost before = out@;
    if len < width {
        push_blanks(out, width - len);
    }
    out.append(s.as_str());
    assert(out@ =~= before + filled_left(dec(n as nat), width as int));
}

fn push_component(out: &mut String, c: &ComponentCells, share: &str)
    ensures
        final(out)@ == old(out)@ + component_line(*c, share@),
{
    let ghost before = out@;
    out.append("  ");
    out.append(c.name);
    let len: usize = chars_of(c.name).len();
    if len < 21 {
        push_blanks(out, 21 - len);
    }
    assert(out@ =~= before + ("  "@ + filled_right(c.name@, 21)));
    out.append(" count=");
    push_column(out, c.count as u64, 9);
    out.append("  cells/unit=");
    push_column(out, c.cells_per as u64, 4);
    out.append("  cells=");
    push_column(out, c.cells as u64, 11);
    out.append("  (");
    out.append(share);
    out.append("%)\n");
    assert(out@ =~= before + component_line(*c, share@));
}

impl CellEstimate {
    /// The total, then a line for each component with its share of the cells in percent.
    pub fn report(&self, shares: &Vec<String>) -> (r: String)
        requires
            shares@.len() == self.components@.len(),
        ensures
            r@ == estimate_text(*self, texts(shares@)),
    {
        let mut out: String = "cells_used = ".to_owned();
        push_dec(&mut out, self.total_cells as u64);
        out.append("\n");
        let ghost head = out@;
        let n: usize = self.components.len();
        let mut i: usize = 0;
        assert(head + component_lines(self.components@, texts(shares@), 0) =~= head);
        while i < n
            invariant
                i <= n,
                n == self.components@.len(),
                n == shares@.len(),
                out@ == head + component_lines(self.components@, texts(shares@), i as nat),
            decreases n - i,
        {
            push_component(&mut out, &self.components[i], shares[i].as_str());
            i = i + 1;
            assert(out@ =~= head + component_lines(self.components@, texts(shares@), i as nat));
        }
        assert(out@ =~= estimate_text(*self, texts(shares@)));
        out
    }
}

impl CellComparison {
    /// Both breakdowns, then what merging saves.
    pub fn report(&self, raw_shares: &Vec<String>, merged_shares: &Vec<String>, saved: &str) -> (r:
        String)
        requires
            raw_shares@.len() == self.raw.components@.len(),
            merged_shares@.len() == self.merged.components@.len(),
        ensures
            r@ == "--- raw (no merge) ---\n"@ + estimate_text(self.raw, texts(raw_shares@))
                + "--- merged (copy-constraints eliminated) ---\n"@ + estimate_text(
                self.merged,
                texts(merged_shares@),
            ) + "saved = "@ + dec(
                (if self.raw.total_cells >= self.merged.total_cells {
                    self.raw.total_cells - self.merged.total_cells
                } else {
                    0
                }) as nat,
            ) + " cells ("@ + saved@ + "%)\n"@,
    {
        let mut out: String = "--- raw (no merge) ---\n".to_owned();
        out.append(self.raw.report(raw_shares).as_str());
        out.append("--- merged (copy-constraints eliminated) ---\n");
        out.append(self.merged.report(merged_shares).as_str());
        out.append("saved = ");
        push_dec(&mut out, self.cells_saved() as u64);
        out.append(" cells (");
        out.append(saved);
        out.append("%)\n");
        out
    }
}

} // verus!
