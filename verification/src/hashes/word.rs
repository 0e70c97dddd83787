//! Words of 32 bits: their limbs and bytes, sums and rotations.
use vstd::prelude::*;

verus! {

/// The sum of two words.
pub open spec fn sum32(a: u32, b: u32) -> u32 {
    ((a + b) % 0x1_0000_0000) as u32
}

/// The sum of two words.
pub fn add32(a: u32, b: u32) -> (r: u32)
    ensures
        r == sum32(a, b),
{
    ((a as u64 + b as u64) % 0x1_0000_0000) as u32
}

/// A word turned to the right.
pub open spec fn rotated(w: u32, n: u32) -> u32 {
    (w >> n) | (w << ((32 - n) as u32))
}

/// A word turned to the right.
pub fn rotr(w: u32, n: u32) -> (r: u32)
    requires
        0 < n < 32,
    ensures
        r == rotated(w, n),
{
    (w >> n) | (w << (32 - n))
}

/// A word turned to the right by any number of bits.
pub open spec fn turned(w: u32, n: u32) -> u32 {
    if n % 32 == 0 {
        w
    } else {
        rotated(w, n % 32)
    }
}

/// A word turned to the right by any number of bits.
pub fn turn(w: u32, n: u32) -> (r: u32)
    ensures
        r == turned(w, n),
{
    if n % 32 == 0 {
        w
    } else {
        rotr(w, n % 32)
    }
}

/// A byte of a word, the lowest first.
pub open spec fn byte_of(w: u32, i: int) -> u8 {
    ((w >> ((8 * i) as u32)) & 0xff) as u8
}

/// A byte of a word, the lowest first.
pub fn take_byte(w: u32, i: u32) -> (r: u8)
    requires
        i < 4,
    ensures
        r == byte_of(w, i as int),
{
    let s: u32 = 8 * i;
    assert((w >> s) & 0xff <= 0xff) by (bit_vector);
    ((w >> s) & 0xff) as u8
}

/// The two limbs of a word, low first.
pub open spec fn limbs(w: u32) -> [u16; 2] {
    [(w & 0xffff) as u16, (w >> 16) as u16]
}

/// The two limbs of a word, low first.
pub fn limbs16(w: u32) -> (r: [u16; 2])
    ensures
        r == limbs(w),
{
    assert(w & 0xffff <= 0xffff) by (bit_vector);
    assert(w >> 16 <= 0xffff) by (bit_vector);
    [(w & 0xffff) as u16, (w >> 16) as u16]
}

/// The four bytes of a word, low first.
pub open spec fn bytes(w: u32) -> [u8; 4] {
    [
        (w & 0xff) as u8,
        ((w >> 8) & 0xff) as u8,
        ((w >> 16) & 0xff) as u8,
        ((w >> 24) & 0xff) as u8,
    ]
}

/// The four bytes of a word, low first.
pub fn bytes32(w: u32) -> (r: [u8; 4])
    ensures
        r == bytes(w),
{
    assert(w & 0xff <= 0xff && (w >> 8) & 0xff <= 0xff && (w >> 16) & 0xff <= 0xff && (w >> 24)
        & 0xff <= 0xff) by (bit_vector);
    [
        (w & 0xff) as u8,
        ((w >> 8) & 0xff) as u8,
        ((w >> 16) & 0xff) as u8,
        ((w >> 24) & 0xff) as u8,
    ]
}

/// Bit `i` of a word.
pub open spec fn bit(w: u32, i: int) -> bool {
    (w >> (i as u32)) & 1 == 1
}

/// The bits of a word, lowest first.
pub fn bits32(w: u32) -> (r: [bool; 32])
    ensures
        forall|i: int| 0 <= i < 32 ==> #[trigger] r[i] == bit(w, i),
{
    let mut r: [bool; 32] = [false; 32];
    let mut i: usize = 0;
    while i < 32
        invariant
            i <= 32,
            forall|k: int| 0 <= k < i ==> #[trigger] r[k] == bit(w, k),
        decreases 32 - i,
    {
        r[i] = (w >> (i as u32)) & 1 == 1;
        i = i + 1;
    }
    r
}

/// A word is its four bytes, each in its place.
pub proof fn law_word_of_bytes(w: u32)
    ensures
        w == bytes(w)[0] as u32 | ((bytes(w)[1] as u32) << 8) | ((bytes(w)[2] as u32) << 16) | ((
        bytes(w)[3] as u32) << 24),
{
    let a = w & 0xff;
    let b = (w >> 8) & 0xff;
    let c = (w >> 16) & 0xff;
    let d = (w >> 24) & 0xff;
    assert(a <= 0xff && b <= 0xff && c <= 0xff && d <= 0xff) by (bit_vector)
        requires
            a == w & 0xff,
            b == (w >> 8) & 0xff,
            c == (w >> 16) & 0xff,
            d == (w >> 24) & 0xff,
    ;
    assert(w == a | (b << 8) | (c << 16) | (d << 24)) by (bit_vector)
        requires
            a == w & 0xff,
            b == (w >> 8) & 0xff,
            c == (w >> 16) & 0xff,
            d == (w >> 24) & 0xff,
    ;
}

} // verus!
