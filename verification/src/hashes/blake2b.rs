//! The tables of BLAKE2b's trace.
use vstd::prelude::*;

verus! {

/// Rows of a mixing.
pub const CLOCKS_PER_G: usize = 1;

/// Mixings of a round.
pub const NUM_G_PER_ROUND: usize = 8;

/// Rounds of an invocation.
pub const ROUNDS: usize = 8;

/// Rows of a round: one for each mixing.
pub const CLOCKS_PER_ROUND: usize = 8;

/// Rows of an invocation.
pub const CLOCKS: usize = 64;

/// The words of the state that each mixing of a round takes.
pub const G_INDICES: [[usize; 4]; 8] = [
    [0, 4, 8, 12],
    [1, 5, 9, 13],
    [2, 6, 10, 14],
    [3, 7, 11, 15],
    [0, 5, 10, 15],
    [1, 6, 11, 12],
    [2, 7, 8, 13],
    [3, 4, 9, 14],
];

/// Rows of the range table.
pub const RANGE_SIZE: usize = 0x1_0000;

/// Rows of the table of exclusive-ors.
pub const TABLE_SIZE: usize = 0x1_0000;

/// The order in which each round takes the message words.
pub const SIGMA: [[usize; 16]; 8] = [
    [0, 1, 2, 3, 4, 5, 6, 7, 8, 9, 10, 11, 12, 13, 14, 15],
    [14, 10, 4, 8, 9, 15, 13, 6, 1, 12, 0, 2, 11, 7, 5, 3],
    [11, 8, 12, 0, 5, 2, 15, 13, 10, 14, 3, 6, 7, 1, 9, 4],
    [7, 9, 3, 1, 13, 12, 11, 14, 2, 6, 5, 10, 4, 0, 15, 8],
    [9, 0, 5, 7, 2, 4, 10, 15, 14, 1, 11, 12, 6, 8, 3, 13],
    [2, 12, 6, 10, 0, 11, 8, 3, 4, 13, 7, 5, 15, 14, 1, 9],
    [12, 5, 1, 15, 14, 13, 4, 10, 0, 7, 6, 3, 9, 2, 8, 11],
    [13, 11, 7, 14, 12, 1, 3, 9, 5, 0, 15, 4, 8, 6, 2, 10],
];

/// The four limbs of a word, low first.
pub fn limbs16(w: u64) -> (r: [u16; 4])
    ensures
        r == [
            (w & 0xffff) as u16,
            ((w >> 16) & 0xffff) as u16,
            ((w >> 32) & 0xffff) as u16,
            ((w >> 48) & 0xffff) as u16,
        ],
{
    assert(w & 0xffff <= 0xffff && (w >> 16) & 0xffff <= 0xffff && (w >> 32) & 0xffff <= 0xffff
        && (w >> 48) & 0xffff <= 0xffff) by (bit_vector);
    [
        (w & 0xffff) as u16,
        ((w >> 16) & 0xffff) as u16,
        ((w >> 32) & 0xffff) as u16,
        ((w >> 48) & 0xffff) as u16,
    ]
}

/// The row of the range table for a limb.
pub fn range_row(v: u16) -> (r: usize)
    ensures
        r == v,
        r < RANGE_SIZE,
{
    v as usize
}

/// The row of the table of exclusive-ors for two bytes.
pub fn table_row(a: u8, b: u8) -> (r: usize)
    ensures
        r == b * 256 + a,
        r < TABLE_SIZE,
{
    (b as usize) * 256 + a as usize
}

} // verus!
