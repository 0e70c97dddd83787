//! The trace layouts: which columns each custom gate uses, and which gates its rows leave free.
use vstd::prelude::*;

use crate::plonk2pil::placement::Tier;
use crate::plonk2pil::placement_laws::tier_splits;
use crate::plonk2pil::placer::tier_fits;
use crate::plonk2pil::stencil::{all_apart, blocks_apart, blocks_fit, block_fits, Block};

verus! {

/// The hash families.
#[derive(Clone, Copy, PartialEq, Eq, Structural, Debug)]
pub enum HashFamily {
    Poseidon1,
    Poseidon2,
}

/// The kinds of setup.
#[derive(Clone, Copy, PartialEq, Eq, Structural, Debug)]
pub enum SetupType {
    Aggregation,
    Compressor,
}

/// A trace layout.
#[derive(Clone, Copy, PartialEq, Eq, Structural, Debug)]
pub struct Layout {
    pub family: HashFamily,
    pub kind: SetupType,
}

pub open spec fn tier(bank: usize, first: usize, end: usize, hf: usize, he: usize) -> Tier {
    Tier { bank, first, end, half_first: hf, half_end: he }
}

pub open spec fn block(n: usize, col: usize, off: usize, sig: usize) -> Block {
    Block { n, col, off, sig }
}

impl Layout {
    /// Number of committed columns.
    pub open spec fn spec_committed_pols(self) -> int {
        match (self.kind, self.family) {
            (SetupType::Aggregation, _) => 48,
            (SetupType::Compressor, HashFamily::Poseidon1) => 40,
            (SetupType::Compressor, HashFamily::Poseidon2) => 43,
        }
    }

    pub fn committed_pols(self) -> (r: usize)
        ensures
            r == self.spec_committed_pols(),
    {
        match (self.kind, self.family) {
            (SetupType::Aggregation, _) => 48,
            (SetupType::Compressor, HashFamily::Poseidon1) => 40,
            (SetupType::Compressor, HashFamily::Poseidon2) => 43,
        }
    }

    /// Number of columns that the connection argument covers.
    pub open spec fn spec_n_cols(self) -> int {
        match self.kind {
            SetupType::Aggregation => 24,
            SetupType::Compressor => 27,
        }
    }

    pub fn n_cols(self) -> (r: usize)
        ensures
            r == self.spec_n_cols(),
    {
        match self.kind {
            SetupType::Aggregation => 24,
            SetupType::Compressor => 27,
        }
    }

    /// Number of PLONK gates per row.
    pub open spec fn gates(self) -> int {
        match self.kind {
            SetupType::Aggregation => 8,
            SetupType::Compressor => 9,
        }
    }

    /// The first gate of bank 1.
    pub open spec fn split(self) -> int {
        match self.kind {
            SetupType::Aggregation => 2,
            SetupType::Compressor => 6,
        }
    }

    /// Rows of one Poseidon gate.
    pub open spec fn spec_poseidon_rows(self) -> int {
        match self.kind {
            SetupType::Aggregation => 5,
            SetupType::Compressor => 10,
        }
    }

    pub fn poseidon_rows(self) -> (r: usize)
        ensures
            r == self.spec_poseidon_rows(),
    {
        match self.kind {
            SetupType::Aggregation => 5,
            SetupType::Compressor => 10,
        }
    }

    /// Complex multiplications per row.
    pub open spec fn spec_cmul_per_row(self) -> int {
        match self.kind {
            SetupType::Aggregation => 2,
            SetupType::Compressor => 3,
        }
    }

    pub fn cmul_per_row(self) -> (r: usize)
        ensures
            r == self.spec_cmul_per_row(),
    {
        match self.kind {
            SetupType::Aggregation => 2,
            SetupType::Compressor => 3,
        }
    }

    /// Rows of one tree selector: eight leaves take two rows, four take one.
    pub open spec fn spec_tree_rows(self) -> int {
        match self.family {
            HashFamily::Poseidon1 => 2,
            HashFamily::Poseidon2 => 1,
        }
    }

    pub fn tree_rows(self) -> (r: usize)
        ensures
            r == self.spec_tree_rows(),
    {
        match self.family {
            HashFamily::Poseidon1 => 2,
            HashFamily::Poseidon2 => 1,
        }
    }

    /// Signals of one tree selector.
    pub open spec fn spec_tree_signals(self) -> int {
        match self.family {
            HashFamily::Poseidon1 => 30,
            HashFamily::Poseidon2 => 17,
        }
    }

    pub fn tree_signals(self) -> (r: usize)
        ensures
            r == self.spec_tree_signals(),
    {
        match self.family {
            HashFamily::Poseidon1 => 30,
            HashFamily::Poseidon2 => 17,
        }
    }

    /// What the rows of custom gates offer, most preferred first.
    pub open spec fn spec_tiers(self) -> Seq<Tier> {
        match (self.kind, self.family) {
            (SetupType::Aggregation, _) => seq![
                tier(0, 0, 2, 2, 5),
                tier(0, 0, 2, 2, 3),
                tier(1, 6, 8, 0, 0),
                tier(1, 7, 8, 0, 0),
            ],
            (SetupType::Compressor, HashFamily::Poseidon1) => seq![
                tier(0, 0, 6, 6, 8),
                tier(0, 0, 6, 0, 0),
                tier(1, 6, 8, 0, 0),
                tier(1, 7, 9, 0, 0),
                tier(1, 8, 9, 0, 0),
            ],
            (SetupType::Compressor, HashFamily::Poseidon2) => seq![
                tier(0, 0, 6, 6, 9),
                tier(0, 0, 6, 8, 9),
                tier(1, 6, 9, 0, 0),
                tier(1, 7, 9, 0, 0),
                tier(1, 8, 9, 0, 0),
            ],
        }
    }

    pub fn tiers(self) -> (r: Vec<Tier>)
        ensures
            r@ == self.spec_tiers(),
    {
        let mut v: Vec<Tier> = Vec::new();
        match (self.kind, self.family) {
            (SetupType::Aggregation, _) => {
                v.push(Tier { bank: 0, first: 0, end: 2, half_first: 2, half_end: 5 });
                v.push(Tier { bank: 0, first: 0, end: 2, half_first: 2, half_end: 3 });
                v.push(Tier { bank: 1, first: 6, end: 8, half_first: 0, half_end: 0 });
                v.push(Tier { bank: 1, first: 7, end: 8, half_first: 0, half_end: 0 });
            },
            (SetupType::Compressor, HashFamily::Poseidon1) => {
                v.push(Tier { bank: 0, first: 0, end: 6, half_first: 6, half_end: 8 });
                v.push(Tier { bank: 0, first: 0, end: 6, half_first: 0, half_end: 0 });
                v.push(Tier { bank: 1, first: 6, end: 8, half_first: 0, half_end: 0 });
                v.push(Tier { bank: 1, first: 7, end: 9, half_first: 0, half_end: 0 });
                v.push(Tier { bank: 1, first: 8, end: 9, half_first: 0, half_end: 0 });
            },
            (SetupType::Compressor, HashFamily::Poseidon2) => {
                v.push(Tier { bank: 0, first: 0, end: 6, half_first: 6, half_end: 9 });
                v.push(Tier { bank: 0, first: 0, end: 6, half_first: 8, half_end: 9 });
                v.push(Tier { bank: 1, first: 6, end: 9, half_first: 0, half_end: 0 });
                v.push(Tier { bank: 1, first: 7, end: 9, half_first: 0, half_end: 0 });
                v.push(Tier { bank: 1, first: 8, end: 9, half_first: 0, half_end: 0 });
            },
        }
        assert(v@ =~= self.spec_tiers());
        v
    }

    /// What a row without custom gates offers.
    pub open spec fn spec_pure_tier(self) -> Tier {
        match self.kind {
            SetupType::Aggregation => tier(0, 0, 2, 2, 8),
            SetupType::Compressor => tier(0, 0, 6, 6, 9),
        }
    }

    pub fn pure_tier(self) -> (r: Tier)
        ensures
            r == self.spec_pure_tier(),
    {
        match self.kind {
            SetupType::Aggregation => Tier {
                bank: 0,
                first: 0,
                end: 2,
                half_first: 2,
                half_end: 8,
            },
            SetupType::Compressor => Tier {
                bank: 0,
                first: 0,
                end: 6,
                half_first: 6,
                half_end: 9,
            },
        }
    }

    /// The rows of a Poseidon gate that offer gates: (row within it, tier).
    pub open spec fn spec_poseidon_offers(self) -> Seq<(usize, usize)> {
        match self.kind {
            SetupType::Aggregation => seq![(1usize, 0usize), (2, 1), (3, 0)],
            SetupType::Compressor => seq![
                (0usize, 2usize),
                (1, 0),
                (2, 0),
                (3, 0),
                (4, 0),
                (5, 1),
                (6, 0),
                (7, 0),
                (8, 0),
                (9, 2),
            ],
        }
    }

    pub fn poseidon_offers(self) -> (r: Vec<(usize, usize)>)
        ensures
            r@ == self.spec_poseidon_offers(),
    {
        let mut v: Vec<(usize, usize)> = Vec::new();
        match self.kind {
            SetupType::Aggregation => {
                v.push((1, 0));
                v.push((2, 1));
                v.push((3, 0));
            },
            SetupType::Compressor => {
                v.push((0, 2));
                v.push((1, 0));
                v.push((2, 0));
                v.push((3, 0));
                v.push((4, 0));
                v.push((5, 1));
                v.push((6, 0));
                v.push((7, 0));
                v.push((8, 0));
                v.push((9, 2));
            },
        }
        assert(v@ =~= self.spec_poseidon_offers());
        v
    }

    /// The tier of a row of complex multiplications.
    pub open spec fn spec_cmul_offers(self) -> Seq<(usize, usize)> {
        match self.kind {
            SetupType::Aggregation => seq![(0usize, 2usize)],
            SetupType::Compressor => Seq::empty(),
        }
    }

    pub fn cmul_offers(self) -> (r: Vec<(usize, usize)>)
        ensures
            r@ == self.spec_cmul_offers(),
    {
        let mut v: Vec<(usize, usize)> = Vec::new();
        match self.kind {
            SetupType::Aggregation => v.push((0, 2)),
            SetupType::Compressor => {},
        }
        assert(v@ =~= self.spec_cmul_offers());
        v
    }

    /// The tier of a row of polynomial evaluation.
    pub open spec fn spec_ev_offers(self) -> Seq<(usize, usize)> {
        seq![(0usize, 3usize)]
    }

    pub fn ev_offers(self) -> (r: Vec<(usize, usize)>)
        ensures
            r@ == self.spec_ev_offers(),
    {
        let mut v: Vec<(usize, usize)> = Vec::new();
        v.push((0, 3));
        assert(v@ =~= self.spec_ev_offers());
        v
    }

    /// The tier of a tree selector's row.
    pub open spec fn spec_tree_offers(self) -> Seq<(usize, usize)> {
        match self.family {
            HashFamily::Poseidon1 => Seq::empty(),
            HashFamily::Poseidon2 => seq![(0usize, 2usize)],
        }
    }

    pub fn tree_offers(self) -> (r: Vec<(usize, usize)>)
        ensures
            r@ == self.spec_tree_offers(),
    {
        let mut v: Vec<(usize, usize)> = Vec::new();
        match self.family {
            HashFamily::Poseidon1 => {},
            HashFamily::Poseidon2 => v.push((0, 2)),
        }
        assert(v@ =~= self.spec_tree_offers());
        v
    }

    /// The tier of a value selector's row.
    pub open spec fn spec_sel_offers(self) -> Seq<(usize, usize)> {
        match self.kind {
            SetupType::Aggregation => Seq::empty(),
            SetupType::Compressor => seq![(0usize, 4usize)],
        }
    }

    pub fn sel_offers(self) -> (r: Vec<(usize, usize)>)
        ensures
            r@ == self.spec_sel_offers(),
    {
        let mut v: Vec<(usize, usize)> = Vec::new();
        match self.kind {
            SetupType::Aggregation => {},
            SetupType::Compressor => v.push((0, 4)),
        }
        assert(v@ =~= self.spec_sel_offers());
        v
    }

    /// The first column of the Poseidon chain in a compressor.
    pub open spec fn spec_chain(self) -> usize {
        match self.family {
            HashFamily::Poseidon1 => 24,
            HashFamily::Poseidon2 => 27,
        }
    }

    /// Where a Poseidon gate's signals go. The signals are the input, the two key bits where
    /// `key` is two, twelve intermediate states and the output, sixteen values each.
    #[verifier::opaque]
    pub open spec fn spec_poseidon_blocks(self, key: usize) -> Seq<Block> {
        let b = (16 + key) as usize;
        match self.kind {
            SetupType::Aggregation => seq![
                block(16, 0, 0, 0),
                block(16, 16, 0, b),
                block(16, 32, 0, (b + 16) as usize),
                block(16, 16, 1, (b + 32) as usize),
                block(16, 32, 1, (b + 48) as usize),
                block(16, 16, 2, (b + 64) as usize),
                block(11, 32, 2, (b + 80) as usize),
                block(5, 43, 2, (b + 112) as usize),
                block(6, 9, 2, (b + 117) as usize),
                block(16, 16, 3, (b + 128) as usize),
                block(16, 32, 3, (b + 144) as usize),
                block(16, 16, 4, (b + 160) as usize),
                block(16, 32, 4, (b + 176) as usize),
                block(16, 0, 4, (b + 192) as usize),
            ] + if key == 2 {
                seq![block(1, 15, 1, 16), block(1, 15, 2, 17)]
            } else {
                Seq::empty()
            },
            SetupType::Compressor => {
                let p = self.spec_chain();
                seq![
                    block(16, 0, 0, 0),
                    block(16, p, 0, b),
                    block(16, p, 1, (b + 16) as usize),
                    block(16, p, 2, (b + 32) as usize),
                    block(16, p, 3, (b + 48) as usize),
                    block(16, p, 4, (b + 64) as usize),
                    block(11, p, 5, (b + 80) as usize),
                    block(5, (p + 11) as usize, 5, (b + 112) as usize),
                    block(6, 18, 5, (b + 117) as usize),
                    block(16, p, 6, (b + 128) as usize),
                    block(16, p, 7, (b + 144) as usize),
                    block(16, p, 8, (b + 160) as usize),
                    block(16, p, 9, (b + 176) as usize),
                    block(16, 0, 9, (b + 192) as usize),
                ] + if key == 2 {
                    seq![block(1, 16, 0, 16), block(1, 17, 0, 17)]
                } else {
                    Seq::empty()
                }
            },
        }
    }

    pub fn poseidon_blocks(self, key: usize) -> (r: Vec<Block>)
        requires
            key == 0 || key == 2,
        ensures
            r@ == self.spec_poseidon_blocks(key),
    {
        let b: usize = 16 + key;
        let mut v: Vec<Block> = Vec::new();
        match self.kind {
            SetupType::Aggregation => {
                v.push(Block { n: 16, col: 0, off: 0, sig: 0 });
                v.push(Block { n: 16, col: 16, off: 0, sig: b });
                v.push(Block { n: 16, col: 32, off: 0, sig: b + 16 });
                v.push(Block { n: 16, col: 16, off: 1, sig: b + 32 });
                v.push(Block { n: 16, col: 32, off: 1, sig: b + 48 });
                v.push(Block { n: 16, col: 16, off: 2, sig: b + 64 });
                v.push(Block { n: 11, col: 32, off: 2, sig: b + 80 });
                v.push(Block { n: 5, col: 43, off: 2, sig: b + 112 });
                v.push(Block { n: 6, col: 9, off: 2, sig: b + 117 });
                v.push(Block { n: 16, col: 16, off: 3, sig: b + 128 });
                v.push(Block { n: 16, col: 32, off: 3, sig: b + 144 });
                v.push(Block { n: 16, col: 16, off: 4, sig: b + 160 });
                v.push(Block { n: 16, col: 32, off: 4, sig: b + 176 });
                v.push(Block { n: 16, col: 0, off: 4, sig: b + 192 });
                if key == 2 {
                    v.push(Block { n: 1, col: 15, off: 1, sig: 16 });
                    v.push(Block { n: 1, col: 15, off: 2, sig: 17 });
                }
            },
            SetupType::Compressor => {
                let p: usize = match self.family {
                    HashFamily::Poseidon1 => 24,
                    HashFamily::Poseidon2 => 27,
                };
                v.push(Block { n: 16, col: 0, off: 0, sig: 0 });
                v.push(Block { n: 16, col: p, off: 0, sig: b });
                v.push(Block { n: 16, col: p, off: 1, sig: b + 16 });
                v.push(Block { n: 16, col: p, off: 2, sig: b + 32 });
                v.push(Block { n: 16, col: p, off: 3, sig: b + 48 });
                v.push(Block { n: 16, col: p, off: 4, sig: b + 64 });
                v.push(Block { n: 11, col: p, off: 5, sig: b + 80 });
                v.push(Block { n: 5, col: p + 11, off: 5, sig: b + 112 });
                v.push(Block { n: 6, col: 18, off: 5, sig: b + 117 });
                v.push(Block { n: 16, col: p, off: 6, sig: b + 128 });
                v.push(Block { n: 16, col: p, off: 7, sig: b + 144 });
                v.push(Block { n: 16, col: p, off: 8, sig: b + 160 });
                v.push(Block { n: 16, col: p, off: 9, sig: b + 176 });
                v.push(Block { n: 16, col: 0, off: 9, sig: b + 192 });
                if key == 2 {
                    v.push(Block { n: 1, col: 16, off: 0, sig: 16 });
                    v.push(Block { n: 1, col: 17, off: 0, sig: 17 });
                }
            },
        }
        proof {
            reveal(Layout::spec_poseidon_blocks);
            assert(v@ =~= self.spec_poseidon_blocks(key));
        }
        v
    }

    /// Where a tree selector's signals go.
    pub open spec fn spec_tree_blocks(self) -> Seq<Block> {
        match (self.family, self.kind) {
            (HashFamily::Poseidon1, SetupType::Aggregation) => seq![
                block(24, 0, 0, 0),
                block(6, 0, 1, 24),
            ],
            (HashFamily::Poseidon1, SetupType::Compressor) => seq![
                block(27, 0, 0, 0),
                block(3, 0, 1, 27),
            ],
            (HashFamily::Poseidon2, _) => seq![block(17, 0, 0, 0)],
        }
    }

    pub fn tree_blocks(self) -> (r: Vec<Block>)
        ensures
            r@ == self.spec_tree_blocks(),
    {
        let mut v: Vec<Block> = Vec::new();
        match (self.family, self.kind) {
            (HashFamily::Poseidon1, SetupType::Aggregation) => {
                v.push(Block { n: 24, col: 0, off: 0, sig: 0 });
                v.push(Block { n: 6, col: 0, off: 1, sig: 24 });
            },
            (HashFamily::Poseidon1, SetupType::Compressor) => {
                v.push(Block { n: 27, col: 0, off: 0, sig: 0 });
                v.push(Block { n: 3, col: 0, off: 1, sig: 27 });
            },
            (HashFamily::Poseidon2, _) => {
                v.push(Block { n: 17, col: 0, off: 0, sig: 0 });
            },
        }
        assert(v@ =~= self.spec_tree_blocks());
        v
    }

    /// Tiers stay inside the row and its banks.
    pub proof fn lemma_tiers(self)
        ensures
            forall|i: int|
                0 <= i < self.spec_tiers().len() ==> tier_fits(
                    #[trigger] self.spec_tiers()[i],
                    self.gates(),
                ) && tier_splits(self.spec_tiers()[i], self.split()),
            tier_fits(self.spec_pure_tier(), self.gates()),
            tier_splits(self.spec_pure_tier(), self.split()),
            3 * self.gates() == self.spec_n_cols(),
            self.spec_n_cols() <= self.spec_committed_pols(),
    {
    }

    /// A Poseidon gate's blocks stay inside its rows, the columns and its signals.
    pub proof fn lemma_poseidon_blocks(self, key: usize)
        requires
            key == 0 || key == 2,
        ensures
            blocks_fit(
                self.spec_poseidon_blocks(key),
                self.spec_committed_pols(),
                self.spec_poseidon_rows(),
                224 + key,
            ),
    {
        reveal(Layout::spec_poseidon_blocks);
        let bs = self.spec_poseidon_blocks(key);
        assert forall|i: int| 0 <= i < bs.len() implies block_fits(
            #[trigger] bs[i],
            self.spec_committed_pols(),
            self.spec_poseidon_rows(),
            224 + key,
        ) by {}
    }

    /// A Poseidon gate places each of its signals into a cell of its own.
    pub proof fn law_poseidon_blocks_apart(self, key: usize)
        requires
            key == 0 || key == 2,
        ensures
            all_apart(self.spec_poseidon_blocks(key)),
    {
        reveal(Layout::spec_poseidon_blocks);
        let bs = self.spec_poseidon_blocks(key);
        assert forall|i: int, j: int|
            0 <= i < bs.len() && 0 <= j < bs.len() && i != j implies blocks_apart(
            #[trigger] bs[i],
            #[trigger] bs[j],
        ) by {}
    }

    pub proof fn lemma_tree_blocks(self)
        ensures
            blocks_fit(
                self.spec_tree_blocks(),
                self.spec_committed_pols(),
                self.spec_tree_rows(),
                self.spec_tree_signals(),
            ),
    {
    }
}

} // verus!
