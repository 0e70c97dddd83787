//! The trace of BLAKE3's compression function: one row for each mixing of four words.
use vstd::prelude::*;

use crate::hashes::lookups_ok;
use crate::hashes::word::{
    add32, byte_of, bytes, bytes32, limbs, limbs16, rotated, rotr, sum32, take_byte, turn, turned,
};

verus! {

/// Rows of a mixing function.
pub const CLOCKS_PER_G: usize = 1;

/// Mixings of a round.
pub const NUM_G_PER_ROUND: usize = 8;

/// Rounds of an invocation.
pub const ROUNDS: usize = 7;

/// Rows of a round.
pub const CLOCKS_PER_ROUND: usize = 8;

/// Rows of an invocation.
pub const CLOCKS: usize = 56;

/// Rows of the range table.
pub const RANGE_SIZE: usize = 0x1_0000;

/// Rows of the table of rotated exclusive-ors: three rotations at four offsets.
pub const TABLE_SIZE: usize = 0xC_0000;

/// The words of the state that each mixing of a round takes: first the columns, then the diagonals.
pub const G_INDICES: [[usize; 4]; 8] = [
    [0, 4, 8, 12],
    [1, 5, 9, 13],
    [2, 6, 10, 14],
    [3, 7, 11, 15],
    [0, 5, 10, 15],
    [1, 6, 11, 12],
    [2, 7, 8, 13],
    [3, 4, 9, 14],
];

/// The order in which each round takes the message words.
pub const SIGMA: [[usize; 16]; 7] = [
    [0, 1, 2, 3, 4, 5, 6, 7, 8, 9, 10, 11, 12, 13, 14, 15],
    [2, 6, 3, 10, 7, 0, 4, 13, 1, 11, 12, 5, 9, 14, 15, 8],
    [3, 4, 10, 12, 13, 2, 7, 14, 6, 5, 9, 0, 11, 15, 8, 1],
    [10, 7, 12, 9, 14, 3, 13, 15, 4, 0, 11, 2, 5, 8, 1, 6],
    [12, 13, 9, 11, 15, 10, 14, 8, 7, 2, 5, 3, 0, 1, 6, 4],
    [9, 14, 11, 5, 8, 12, 15, 1, 13, 3, 0, 10, 2, 6, 4, 7],
    [11, 15, 5, 0, 1, 9, 8, 6, 14, 10, 2, 12, 3, 4, 7, 13],
];

/// The message word that round `r` takes as its `j`-th.
pub open spec fn scheduled(r: int, j: int) -> int {
    SIGMA[r][j] as int
}

fn schedule(r: usize, j: usize) -> (i: usize)
    requires
        r < 7,
        j < 16,
    ensures
        i == scheduled(r as int, j as int),
        i < 16,
{
    SIGMA[r][j]
}

/// The word of the state that mixing `g` of a round takes as its `slot`-th.
pub open spec fn mixed(g: int, slot: int) -> int {
    G_INDICES[g][slot] as int
}

fn mixed_index(g: usize, slot: usize) -> (i: usize)
    requires
        g < 8,
        slot < 4,
    ensures
        i == mixed(g as int, slot as int),
        i < 16,
{
    G_INDICES[g][slot]
}

/// The values of one mixing.
pub struct Mix {
    pub a1: u32,
    pub d1: u32,
    pub c1: u32,
    pub b1: u32,
    pub a2: u32,
    pub d2: u32,
    pub c2: u32,
    pub b2: u32,
}

/// The mixing of four words with two message words.
pub open spec fn mixing(va: u32, vb: u32, vc: u32, vd: u32, x: u32, y: u32) -> Mix {
    let a1 = sum32(sum32(va, vb), x);
    let d1 = rotated(vd ^ a1, 16);
    let c1 = sum32(vc, d1);
    let b1 = rotated(vb ^ c1, 12);
    let a2 = sum32(sum32(a1, b1), y);
    let d2 = rotated(d1 ^ a2, 8);
    let c2 = sum32(c1, d2);
    let b2 = rotated(b1 ^ c2, 7);
    Mix { a1, d1, c1, b1, a2, d2, c2, b2 }
}

fn mix(va: u32, vb: u32, vc: u32, vd: u32, x: u32, y: u32) -> (r: Mix)
    ensures
        r == mixing(va, vb, vc, vd, x, y),
{
    let a1: u32 = add32(add32(va, vb), x);
    let d1: u32 = rotr(vd ^ a1, 16);
    let c1: u32 = add32(vc, d1);
    let b1: u32 = rotr(vb ^ c1, 12);
    let a2: u32 = add32(add32(a1, b1), y);
    let d2: u32 = rotr(d1 ^ a2, 8);
    let c2: u32 = add32(c1, d2);
    let b2: u32 = rotr(b1 ^ c2, 7);
    Mix { a1, d1, c1, b1, a2, d2, c2, b2 }
}

/// One row: the words of a mixing, in the limbs that the table takes.
pub struct Blake3Row {
    pub va: [u16; 2],
    pub vb: [u8; 4],
    pub vc: [u16; 2],
    pub vd: [u8; 4],
    pub x: [u16; 2],
    pub y: [u16; 2],
    pub va_prime: [u8; 4],
    pub vd_prime: [u8; 4],
    pub vc_prime: [u8; 4],
    pub va_prime_prime: [u8; 4],
    pub vd_prime_prime: [u8; 4],
    pub vc_prime_prime: [u8; 4],
    pub vb_prime_s: [[u8; 2]; 4],
    pub vb_prime_prime_s: [u32; 4],
}

/// Two bytes as a row holds them.
pub open spec fn pair(p: (u8, u8)) -> [u8; 2] {
    [p.0, p.1]
}

fn both(p: (u8, u8)) -> (r: [u8; 2])
    ensures
        r == pair(p),
{
    [p.0, p.1]
}

/// The byte of a turned word that the low bits of a byte fall into: the one behind it holds the
/// rest.
pub open spec fn landing(rot: u32) -> int {
    ((32 - rot) % 32) / 8
}

/// The two bytes that an exclusive-or of bytes falls into when it is turned right.
pub open spec fn split_by(a: u8, b: u8, rot: u32) -> (u8, u8) {
    let c = turned((a ^ b) as u32, rot);
    let l = landing(rot);
    (byte_of(c, l), byte_of(c, (l + 1) % 4))
}

/// The two bytes that an exclusive-or of bytes falls into when it is turned right.
pub fn xor_rotr_split(a: u8, b: u8, rot: u32) -> (r: (u8, u8))
    requires
        rot <= 32,
    ensures
        r == split_by(a, b, rot),
{
    let c: u32 = turn((a ^ b) as u32, rot);
    let l: u32 = ((32 - rot) % 32) / 8;
    (take_byte(c, l), take_byte(c, (l + 1) % 4))
}

/// An exclusive-or of bytes in byte `offset` of a word, turned right.
pub open spec fn placed_by(a: u8, b: u8, offset: int, rot: u32) -> u32 {
    turned(((a ^ b) as u32) << ((8 * offset) as u32), rot)
}

/// An exclusive-or of bytes in byte `offset` of a word, turned right.
pub fn xor_rotr_full(a: u8, b: u8, offset: usize, rot: u32) -> (r: u32)
    requires
        offset < 4,
    ensures
        r == placed_by(a, b, offset as int, rot),
{
    turn(((a ^ b) as u32) << (8 * offset as u32), rot)
}

/// Turning a word right by 7 bits is turning each of its bytes in its place.
pub proof fn law_bytes_turn_apart(v: u32, w: u32)
    ensures
        rotated(v ^ w, 7) == placed_by(bytes(v)[0], bytes(w)[0], 0, 7) ^ placed_by(
            bytes(v)[1],
            bytes(w)[1],
            1,
            7,
        ) ^ placed_by(bytes(v)[2], bytes(w)[2], 2, 7) ^ placed_by(bytes(v)[3], bytes(w)[3], 3, 7),
{
    let (v0, v1, v2, v3) = (bytes(v)[0], bytes(v)[1], bytes(v)[2], bytes(v)[3]);
    let (w0, w1, w2, w3) = (bytes(w)[0], bytes(w)[1], bytes(w)[2], bytes(w)[3]);
    crate::hashes::word::law_word_of_bytes(v);
    crate::hashes::word::law_word_of_bytes(w);
    assert(({
        let x = v ^ w;
        let a = ((v0 ^ w0) as u32) << 0u32;
        let b = ((v1 ^ w1) as u32) << 8u32;
        let c = ((v2 ^ w2) as u32) << 16u32;
        let d = ((v3 ^ w3) as u32) << 24u32;
        (x >> 7) | (x << 25) == ((a >> 7) | (a << 25)) ^ ((b >> 7) | (b << 25)) ^ ((c >> 7) | (c
            << 25)) ^ ((d >> 7) | (d << 25))
    })) by (bit_vector)
        requires
            v == v0 as u32 | ((v1 as u32) << 8) | ((v2 as u32) << 16) | ((v3 as u32) << 24),
            w == w0 as u32 | ((w1 as u32) << 8) | ((w2 as u32) << 16) | ((w3 as u32) << 24),
    ;
}

/// The row of a mixing.
pub open spec fn row_of_mix(va: u32, vb: u32, vc: u32, vd: u32, x: u32, y: u32) -> Blake3Row {
    let m = mixing(va, vb, vc, vd, x, y);
    let (b, c1) = (bytes(vb), bytes(m.c1));
    let (b1, c2) = (bytes(m.b1), bytes(m.c2));
    Blake3Row {
        va: limbs(va),
        vb: bytes(vb),
        vc: limbs(vc),
        vd: bytes(vd),
        x: limbs(x),
        y: limbs(y),
        va_prime: bytes(m.a1),
        vd_prime: bytes(m.d1),
        vc_prime: bytes(m.c1),
        va_prime_prime: bytes(m.a2),
        vd_prime_prime: bytes(m.d2),
        vc_prime_prime: bytes(m.c2),
        vb_prime_s: [
            pair(split_by(b[0], c1[0], 12)),
            pair(split_by(b[1], c1[1], 12)),
            pair(split_by(b[2], c1[2], 12)),
            pair(split_by(b[3], c1[3], 12)),
        ],
        vb_prime_prime_s: [
            placed_by(b1[0], c2[0], 0, 7),
            placed_by(b1[1], c2[1], 1, 7),
            placed_by(b1[2], c2[2], 2, 7),
            placed_by(b1[3], c2[3], 3, 7),
        ],
    }
}

fn row_for(va: u32, vb: u32, vc: u32, vd: u32, x: u32, y: u32, m: &Mix) -> (r: Blake3Row)
    requires
        *m == mixing(va, vb, vc, vd, x, y),
    ensures
        r == row_of_mix(va, vb, vc, vd, x, y),
{
    let b: [u8; 4] = bytes32(vb);
    let c1: [u8; 4] = bytes32(m.c1);
    let b1: [u8; 4] = bytes32(m.b1);
    let c2: [u8; 4] = bytes32(m.c2);
    Blake3Row {
        va: limbs16(va),
        vb: b,
        vc: limbs16(vc),
        vd: bytes32(vd),
        x: limbs16(x),
        y: limbs16(y),
        va_prime: bytes32(m.a1),
        vd_prime: bytes32(m.d1),
        vc_prime: c1,
        va_prime_prime: bytes32(m.a2),
        vd_prime_prime: bytes32(m.d2),
        vc_prime_prime: c2,
        vb_prime_s: [
            both(xor_rotr_split(b[0], c1[0], 12)),
            both(xor_rotr_split(b[1], c1[1], 12)),
            both(xor_rotr_split(b[2], c1[2], 12)),
            both(xor_rotr_split(b[3], c1[3], 12)),
        ],
        vb_prime_prime_s: [
            xor_rotr_full(b1[0], c2[0], 0, 7),
            xor_rotr_full(b1[1], c2[1], 1, 7),
            xor_rotr_full(b1[2], c2[2], 2, 7),
            xor_rotr_full(b1[3], c2[3], 3, 7),
        ],
    }
}

/// The words that mixing `k` of an invocation takes from a state, and its message words.
pub open spec fn operands(v: Seq<u32>, m: Seq<u32>, k: int) -> (u32, u32, u32, u32, u32, u32) {
    let (r, g) = (k / 8, k % 8);
    (
        v[mixed(g, 0)],
        v[mixed(g, 1)],
        v[mixed(g, 2)],
        v[mixed(g, 3)],
        m[scheduled(r, 2 * g)],
        m[scheduled(r, 2 * g + 1)],
    )
}

/// The state after a mixing.
pub open spec fn mixed_state(v: Seq<u32>, m: Seq<u32>, k: int) -> Seq<u32> {
    let g = k % 8;
    let (va, vb, vc, vd, x, y) = operands(v, m, k);
    let s = mixing(va, vb, vc, vd, x, y);
    v.update(mixed(g, 0), s.a2).update(mixed(g, 1), s.b2).update(mixed(g, 2), s.c2).update(
        mixed(g, 3),
        s.d2,
    )
}

/// The state before mixing `k`.
pub open spec fn state_before(v: Seq<u32>, m: Seq<u32>, k: nat) -> Seq<u32>
    decreases k,
{
    if k == 0 {
        v
    } else {
        mixed_state(state_before(v, m, (k - 1) as nat), m, k - 1)
    }
}

/// The row of mixing `k`.
pub open spec fn row_at(v: Seq<u32>, m: Seq<u32>, k: int) -> Blake3Row {
    let (va, vb, vc, vd, x, y) = operands(state_before(v, m, k as nat), m, k);
    row_of_mix(va, vb, vc, vd, x, y)
}

/// The rows of an invocation, and the state that it leaves.
pub fn process_trace(state: &[u32; 16], message: &[u32; 16]) -> (r: (Vec<Blake3Row>, [u32; 16]))
    ensures
        r.0@.len() == CLOCKS,
        forall|k: int| 0 <= k < CLOCKS ==> #[trigger] r.0@[k] == row_at(state@, message@, k),
        r.1@ == state_before(state@, message@, CLOCKS as nat),
{
    let mut v: [u32; 16] = *state;
    let mut rows: Vec<Blake3Row> = Vec::new();
    let mut k: usize = 0;
    while k < CLOCKS
        invariant
            k <= CLOCKS,
            v@ == state_before(state@, message@, k as nat),
            rows@.len() == k,
            forall|j: int| 0 <= j < k ==> #[trigger] rows@[j] == row_at(state@, message@, j),
        decreases CLOCKS - k,
    {
        let r: usize = k / 8;
        let g: usize = k % 8;
        let ia: usize = mixed_index(g, 0);
        let ib: usize = mixed_index(g, 1);
        let ic: usize = mixed_index(g, 2);
        let id: usize = mixed_index(g, 3);
        let x: u32 = message[schedule(r, 2 * g)];
        let y: u32 = message[schedule(r, 2 * g + 1)];
        let ghost before = v@;
        let m: Mix = mix(v[ia], v[ib], v[ic], v[id], x, y);
        let row: Blake3Row = row_for(v[ia], v[ib], v[ic], v[id], x, y, &m);
        rows.push(row);
        v[ia] = m.a2;
        v[ib] = m.b2;
        v[ic] = m.c2;
        v[id] = m.d2;
        proof {
            assert(v@ =~= mixed_state(before, message@, k as int));
            assert(state_before(state@, message@, (k + 1) as nat) == mixed_state(
                state_before(state@, message@, k as nat),
                message@,
                k as int,
            ));
        }
        k = k + 1;
    }
    (rows, v)
}

/// The rotations of the table.
#[derive(Clone, Copy, PartialEq, Eq, Structural, Debug)]
pub enum Rotation {
    By0,
    By12,
    By7,
}

/// The row of the table for two bytes.
pub open spec fn table_index(offset: int, a: u8, b: u8, rot: Rotation) -> int {
    (match rot {
        Rotation::By0 => 0int,
        Rotation::By12 => 1int,
        Rotation::By7 => 2int,
    }) * 0x4_0000 + offset * 0x1_0000 + b * 256 + a
}

/// The row of the table for two bytes.
pub fn table_row(offset: usize, a: u8, b: u8, rot: Rotation) -> (r: usize)
    requires
        offset < 4,
    ensures
        r == table_index(offset as int, a, b, rot),
        r < TABLE_SIZE,
{
    let block: usize = match rot {
        Rotation::By0 => 0,
        Rotation::By12 => 1,
        Rotation::By7 => 2,
    };
    block * 0x4_0000 + offset * 0x1_0000 + (b as usize) * 256 + a as usize
}

/// Different lookups have different rows.
pub proof fn law_table_rows_differ(
    o: int,
    a: u8,
    b: u8,
    rot: Rotation,
    p: int,
    c: u8,
    d: u8,
    turn: Rotation,
)
    requires
        0 <= o < 4,
        0 <= p < 4,
        table_index(o, a, b, rot) == table_index(p, c, d, turn),
    ensures
        o == p,
        a == c,
        b == d,
        rot == turn,
{
}

/// What a row looks up in the table, lane by lane.
pub open spec fn table_lookups(r: Blake3Row, b1: [u8; 4]) -> Seq<int> {
    Seq::new(
        16,
        |j: int|
            {
                let i = j / 4;
                if j % 4 == 0 {
                    table_index(0, r.vd[i], r.va_prime[i], Rotation::By0)
                } else if j % 4 == 1 {
                    table_index(0, r.vb[i], r.vc_prime[i], Rotation::By12)
                } else if j % 4 == 2 {
                    table_index(0, r.vd_prime[i], r.va_prime_prime[i], Rotation::By0)
                } else {
                    table_index(i, b1[i], r.vc_prime_prime[i], Rotation::By7)
                }
            },
    )
}

/// The lookups as integers.
pub open spec fn lookup_ints(v: Seq<usize>) -> Seq<int> {
    v.map_values(|i: usize| i as int)
}

/// The bytes of the second word after the first half of a mixing.
pub open spec fn second_word(r: Blake3Row) -> u32 {
    rotated(word_from(r.vb) ^ word_from(r.vc_prime), 12)
}

/// The word that bytes stand for.
pub open spec fn word_from(b: [u8; 4]) -> u32 {
    b[0] as u32 | ((b[1] as u32) << 8) | ((b[2] as u32) << 16) | ((b[3] as u32) << 24)
}

fn word_of(b: &[u8; 4]) -> (r: u32)
    ensures
        r == word_from(*b),
{
    b[0] as u32 | ((b[1] as u32) << 8) | ((b[2] as u32) << 16) | ((b[3] as u32) << 24)
}

/// What a row looks up in the table, lane by lane.
pub fn row_table_lookups(r: &Blake3Row) -> (v: Vec<usize>)
    ensures
        lookup_ints(v@) == table_lookups(*r, bytes(second_word(*r))),
        lookups_ok(v@, TABLE_SIZE as nat),
{
    let b1: [u8; 4] = bytes32(rotr(word_of(&r.vb) ^ word_of(&r.vc_prime), 12));
    let ghost all = table_lookups(*r, b1);
    let mut out: Vec<usize> = Vec::new();
    let mut i: usize = 0;
    assert(lookup_ints(out@) =~= all.take(0));
    while i < 4
        invariant
            i <= 4,
            all == table_lookups(*r, b1),
            lookup_ints(out@) == all.take(4 * i),
            lookups_ok(out@, TABLE_SIZE as nat),
        decreases 4 - i,
    {
        let ghost before = out@;
        out.push(table_row(0, r.vd[i], r.va_prime[i], Rotation::By0));
        out.push(table_row(0, r.vb[i], r.vc_prime[i], Rotation::By12));
        out.push(table_row(0, r.vd_prime[i], r.va_prime_prime[i], Rotation::By0));
        out.push(table_row(i, b1[i], r.vc_prime_prime[i], Rotation::By7));
        proof {
            assert(lookup_ints(before).len() == 4 * i);
            assert forall|j: int| 0 <= j < 4 * (i + 1) implies lookup_ints(out@)[j] == all.take(
                4 * (i + 1),
            )[j] by {
                if j < 4 * i {
                    assert(lookup_ints(before)[j] == all.take(4 * i)[j]);
                    assert(out@[j] == before[j]);
                } else {
                    assert(j / 4 == i);
                }
            }
            assert(lookup_ints(out@) =~= all.take(4 * (i + 1)));
        }
        i = i + 1;
    }
    assert(all.take(16) =~= all);
    out
}

/// What a row looks up in the range table: the limbs of the words that come from elsewhere.
pub open spec fn range_lookups(r: Blake3Row) -> Seq<int> {
    seq![
        r.va[0] as int,
        r.va[1] as int,
        r.vc[0] as int,
        r.vc[1] as int,
        r.x[0] as int,
        r.x[1] as int,
        r.y[0] as int,
        r.y[1] as int,
    ]
}

/// What a row looks up in the range table.
pub fn row_range_lookups(r: &Blake3Row) -> (v: Vec<usize>)
    ensures
        lookup_ints(v@) == range_lookups(*r),
        lookups_ok(v@, RANGE_SIZE as nat),
{
    let mut out: Vec<usize> = Vec::new();
    out.push(r.va[0] as usize);
    out.push(r.va[1] as usize);
    out.push(r.vc[0] as usize);
    out.push(r.vc[1] as usize);
    out.push(r.x[0] as usize);
    out.push(r.x[1] as usize);
    out.push(r.y[0] as usize);
    out.push(r.y[1] as usize);
    assert(lookup_ints(out@) =~= range_lookups(*r));
    out
}

/// A row of a mixing looks up the bytes of that mixing: its second word is the one that the row
/// is turned into.
pub proof fn law_lookups_are_of_the_mixing(va: u32, vb: u32, vc: u32, vd: u32, x: u32, y: u32)
    ensures
        second_word(row_of_mix(va, vb, vc, vd, x, y)) == mixing(va, vb, vc, vd, x, y).b1,
{
    crate::hashes::word::law_word_of_bytes(vb);
    crate::hashes::word::law_word_of_bytes(mixing(va, vb, vc, vd, x, y).c1);
}

} // verus!
