use proofman::hashes::blake2b;
use proofman::hashes::blake3::{
    process_trace, row_range_lookups, row_table_lookups, table_row,
    xor_rotr_full, xor_rotr_split, Rotation, CLOCKS, RANGE_SIZE, TABLE_SIZE,
};
use proofman::hashes::inputs::{blake3_trace, sha2_trace};
use proofman::hashes::sha2;
use proofman::hashes::traces::{fill_blake3, fill_sha2};
use proofman::hashes::word::{bits32, bytes32, limbs16};
use proofman::hashes::{add_lookups, num_available};

const BLAKE_IV: [u32; 8] = [
    0x6a09e667, 0xbb67ae85, 0x3c6ef372, 0xa54ff53a, 0x510e527f, 0x9b05688c, 0x1f83d9ab, 0x5be0cd19,
];

/// The state in front of the last block of an empty input.
fn empty_input() -> [u32; 16] {
    let mut state = [0u32; 16];
    state[..8].copy_from_slice(&BLAKE_IV);
    state[8..12].copy_from_slice(&BLAKE_IV[..4]);
    state[15] = 11;
    state
}

#[test]
fn blake3_of_nothing() {
    let (rows, out) = process_trace(&empty_input(), &[0; 16]);
    assert_eq!(rows.len(), CLOCKS);
    let digest: Vec<u8> =
        (0..8).flat_map(|i| (out[i] ^ out[i + 8]).to_le_bytes()).collect();
    assert_eq!(digest[..8], [0xaf, 0x13, 0x49, 0xb9, 0xf5, 0xf9, 0xa1, 0xa6]);
    assert_eq!(rows[0].va, limbs16(BLAKE_IV[0]));
    assert_eq!(rows[0].vb, BLAKE_IV[4].to_le_bytes());
    // The pieces of the last rotation give the word that the next row mixes.
    let turned = rows[0].vb_prime_prime_s.iter().fold(0, |a, b| a ^ b);
    assert_eq!(rows[7].vb, turned.to_le_bytes());
}

#[test]
fn blake3_takes_its_message_in_order() {
    let message: [u32; 16] = core::array::from_fn(|i| i as u32);
    let (rows, _) = process_trace(&empty_input(), &message);
    let taken: Vec<u16> = rows[8..16].iter().flat_map(|r| [r.x[0], r.y[0]]).collect();
    assert_eq!(taken, vec![2, 6, 3, 10, 7, 0, 4, 13, 1, 11, 12, 5, 9, 14, 15, 8]);
    let taken: Vec<u16> = rows[48..56].iter().flat_map(|r| [r.x[0], r.y[0]]).collect();
    assert_eq!(taken, vec![11, 15, 5, 0, 1, 9, 8, 6, 14, 10, 2, 12, 3, 4, 7, 13]);
}

#[test]
fn blake3_counts_its_lookups() {
    let (rows, _) = process_trace(&empty_input(), &[0; 16]);
    let mut table = vec![0u64; TABLE_SIZE];
    let mut range = vec![0u64; RANGE_SIZE];
    for row in &rows {
        add_lookups(&mut table, &row_table_lookups(row), 1);
        add_lookups(&mut range, &row_range_lookups(row), 1);
    }
    assert_eq!(table.iter().sum::<u64>(), 16 * CLOCKS as u64);
    assert_eq!(range.iter().sum::<u64>(), 8 * CLOCKS as u64);
    // Both message words of every row are zero.
    assert!(range[0] >= 4 * CLOCKS as u64);
}

#[test]
fn blake3_bytes_turn_apart() {
    assert_eq!(table_row(3, 5, 7, Rotation::By7), 2 * (1 << 18) + 3 * (1 << 16) + 7 * 256 + 5);
    let (v, w) = (0x8765_4321u32, 0x1234_5678u32);
    let (a, b) = (v.to_le_bytes(), w.to_le_bytes());
    let full = (0..4).fold(0, |acc, i| acc ^ xor_rotr_full(a[i], b[i], i, 7));
    assert_eq!(full, (v ^ w).rotate_right(7));
    // Turned right by 12 bits, byte `i` falls into the bytes two and three places on.
    let mut bytes = [0u8; 4];
    for i in 0..4 {
        let (lo, hi) = xor_rotr_split(a[i], b[i], 12);
        bytes[(i + 2) % 4] ^= lo;
        bytes[(i + 3) % 4] ^= hi;
    }
    assert_eq!(u32::from_le_bytes(bytes), (v ^ w).rotate_right(12));
    assert_eq!(xor_rotr_split(0xf0, 0x0f, 0), (0xff, 0));
    assert_eq!(xor_rotr_split(0xff, 0, 4), (0xf0, 0x0f));
    assert_eq!(xor_rotr_full(3, 1, 3, 32), 0x0200_0000);
}

const SHA_IV: [u32; 8] = BLAKE_IV;

const SHA_K: [u32; 64] = [
    0x428a2f98, 0x71374491, 0xb5c0fbcf, 0xe9b5dba5, 0x3956c25b, 0x59f111f1, 0x923f82a4, 0xab1c5ed5,
    0xd807aa98, 0x12835b01, 0x243185be, 0x550c7dc3, 0x72be5d74, 0x80deb1fe, 0x9bdc06a7, 0xc19bf174,
    0xe49b69c1, 0xefbe4786, 0x0fc19dc6, 0x240ca1cc, 0x2de92c6f, 0x4a7484aa, 0x5cb0a9dc, 0x76f988da,
    0x983e5152, 0xa831c66d, 0xb00327c8, 0xbf597fc7, 0xc6e00bf3, 0xd5a79147, 0x06ca6351, 0x14292967,
    0x27b70a85, 0x2e1b2138, 0x4d2c6dfc, 0x53380d13, 0x650a7354, 0x766a0abb, 0x81c2c92e, 0x92722c85,
    0xa2bfe8a1, 0xa81a664b, 0xc24b8b70, 0xc76c51a3, 0xd192e819, 0xd6990624, 0xf40e3585, 0x106aa070,
    0x19a4c116, 0x1e376c08, 0x2748774c, 0x34b0bcb5, 0x391c0cb3, 0x4ed8aa4a, 0x5b9cca4f, 0x682e6ff3,
    0x748f82ee, 0x78a5636f, 0x84c87814, 0x8cc70208, 0x90befffa, 0xa4506ceb, 0xbef9a3f7, 0xc67178f2,
];

#[test]
fn sha2_of_abc() {
    let mut input = [0u32; 16];
    input[0] = 0x61626380;
    input[15] = 24;
    let (rows, out) = sha2::process_trace(&SHA_IV, &input, &SHA_K);
    assert_eq!(out, [
        0xba7816bf, 0x8f01cfea, 0x414140de, 0x5dae2223, 0xb00361a3, 0x96177a9c, 0xb410ff61,
        0xf20015ad
    ]);
    assert_eq!(rows.len(), sha2::CLOCKS);
    assert_eq!((rows[0].s0, rows[3].s0, rows[0].s1), (SHA_IV[3], SHA_IV[0], SHA_IV[7]));
    let looked = sha2::lookups(&SHA_IV, &input, &SHA_K, &rows);
    assert_eq!(looked.len(), sha2::CLOCKS);
    let mut counts = vec![0u64; sha2::RANGE_SIZE];
    add_lookups(&mut counts, &looked, 1);
    assert_eq!(counts.iter().sum::<u64>(), 72);
    assert!(counts[0] >= 4);
}

#[test]
fn words_come_apart() {
    assert_eq!(limbs16(0x1234_5678), [0x5678, 0x1234]);
    assert_eq!(bytes32(0x1234_5678), 0x1234_5678u32.to_le_bytes());
    let bits = bits32(0x8000_0005);
    assert_eq!((0..32).filter(|&i| bits[i]).collect::<Vec<_>>(), vec![0, 2, 31]);
    assert_eq!(blake2b::limbs16(0x0123_4567_89ab_cdef), [0xcdef, 0x89ab, 0x4567, 0x0123]);
    assert_eq!(blake2b::table_row(3, 2), 515);
    assert_eq!(blake2b::range_row(9), 9);
    assert_eq!(blake2b::SIGMA[1], [14, 10, 4, 8, 9, 15, 13, 6, 1, 12, 0, 2, 11, 7, 5, 3]);
    assert_eq!(blake2b::G_INDICES[5], [1, 6, 11, 12]);
    assert_eq!(blake2b::CLOCKS_PER_ROUND, blake2b::CLOCKS_PER_G * blake2b::NUM_G_PER_ROUND);
    assert_eq!(blake2b::CLOCKS, blake2b::CLOCKS_PER_ROUND * blake2b::ROUNDS);
    assert_eq!(num_available(112, 56), 2);
    assert_eq!(num_available(1 << 20, 56), (1 << 20) / 56 - 1);
}

#[test]
fn blake3_rows_left_over_look_up_zeros() {
    let inputs = vec![(empty_input(), [0; 16])];
    let num_rows = CLOCKS + 10;
    let trace = fill_blake3(num_rows, &inputs);
    assert_eq!(trace.rows.len(), num_rows);
    assert_eq!(trace.rows[CLOCKS].vb_prime_prime_s, [0; 4]);
    assert_eq!(trace.table_counts.iter().sum::<u64>(), 16 * num_rows as u64);
    assert_eq!(trace.range_counts.iter().sum::<u64>(), 8 * num_rows as u64);
    // Each looks up a zero pair eight times as it is, four times turned by 12 bits, and once at
    // each offset turned by 7 bits.
    let filled = fill_blake3(CLOCKS, &inputs);
    let more = |row: usize| trace.table_counts[row] - filled.table_counts[row];
    assert_eq!(more(table_row(0, 0, 0, Rotation::By0)), 80);
    assert_eq!(more(table_row(0, 0, 0, Rotation::By12)), 40);
    assert_eq!(more(table_row(0, 0, 0, Rotation::By7)), 10);
    assert_eq!(more(table_row(3, 0, 0, Rotation::By7)), 10);
    assert_eq!(trace.range_counts[0] - filled.range_counts[0], 80);
}

#[test]
fn sha2_cycles_left_over_hash_zeros() {
    // Three cycles and some rows: two cycles are used, and the first takes the input.
    let num_rows = 3 * sha2::CLOCKS + 5;
    let trace = fill_sha2(num_rows, &vec![(SHA_IV, [1; 16])], &SHA_K);
    assert_eq!(num_available(num_rows, sha2::CLOCKS), 2);
    assert_eq!(trace.rows.len(), 2 * sha2::CLOCKS);
    assert_eq!(trace.rows[..sha2::CLOCKS], sha2::process_trace(&SHA_IV, &[1; 16], &SHA_K).0[..]);
    assert_eq!(trace.rows[sha2::CLOCKS..], sha2::process_trace(&[0; 8], &[0; 16], &SHA_K).0[..]);
    assert_eq!(trace.range_counts.iter().sum::<u64>(), num_rows as u64);
}

#[test]
fn traces_hold_random_invocations() {
    let num_rows = 2 * CLOCKS;
    let trace = blake3_trace(num_rows);
    assert_eq!(trace.rows.len(), num_rows);
    assert_eq!(trace.table_counts.iter().sum::<u64>(), 16 * num_rows as u64);
    // Different numbers give different words, and the same numbers the same ones.
    let words = |k: usize| trace.rows[k * CLOCKS].vb_prime_prime_s;
    assert_ne!(words(0), words(1));
    assert_eq!(words(1), blake3_trace(num_rows).rows[CLOCKS].vb_prime_prime_s);
    let trace = sha2_trace(2 * sha2::CLOCKS + 1, &[7; 64]);
    assert_eq!(trace.rows.len(), sha2::CLOCKS);
}
