//! Words and their little-endian bytes.
use vstd::prelude::*;

verus! {

/// The value of eight little-endian bytes.
pub open spec fn word_value(b: Seq<u8>) -> int {
    b[0] + 0x100 * b[1] + 0x1_0000 * b[2] + 0x100_0000 * b[3] + 0x1_0000_0000 * b[4]
        + 0x100_0000_0000 * b[5] + 0x1_0000_0000_0000 * b[6] + 0x100_0000_0000_0000 * b[7]
}

/// `bytes` are the little-endian bytes of `words`.
pub open spec fn are_bytes_of(bytes: Seq<u8>, words: Seq<u64>) -> bool {
    &&& bytes.len() == 8 * words.len()
    &&& forall|i: int|
        0 <= i < words.len() ==> #[trigger] words[i] == word_value(
            bytes.subrange(8 * i, 8 * i + 8),
        )
}

fn byte_at(w: u64, k: u64) -> (r: u8)
    requires
        k < 8,
    ensures
        r == (w >> (8 * k)) & 0xff,
{
    let s: u64 = (w >> (8 * k)) & 0xff;
    assert((w >> (8 * k)) & 0xff <= 255) by (bit_vector);
    s as u8
}

/// The little-endian bytes of words.
pub fn words_to_bytes(words: &[u64]) -> (r: Vec<u8>)
    ensures
        are_bytes_of(r@, words@),
{
    let mut out: Vec<u8> = Vec::new();
    let mut i: usize = 0;
    while i < words.len()
        invariant
            i <= words@.len(),
            are_bytes_of(out@, words@.take(i as int)),
        decreases words@.len() - i,
    {
        let w: u64 = words[i];
        let ghost before = out@;
        out.push(byte_at(w, 0));
        out.push(byte_at(w, 1));
        out.push(byte_at(w, 2));
        out.push(byte_at(w, 3));
        out.push(byte_at(w, 4));
        out.push(byte_at(w, 5));
        out.push(byte_at(w, 6));
        out.push(byte_at(w, 7));
        proof {
            assert(w == ((w >> 0) & 0xff) + 0x100 * ((w >> 8) & 0xff) + 0x1_0000 * ((w >> 16)
                & 0xff) + 0x100_0000 * ((w >> 24) & 0xff) + 0x1_0000_0000 * ((w >> 32) & 0xff)
                + 0x100_0000_0000 * ((w >> 40) & 0xff) + 0x1_0000_0000_0000 * ((w >> 48) & 0xff)
                + 0x100_0000_0000_0000 * ((w >> 56) & 0xff)) by (bit_vector);
            let t = words@.take(i + 1);
            assert forall|j: int| 0 <= j < t.len() implies #[trigger] t[j] == word_value(
                out@.subrange(8 * j, 8 * j + 8),
            ) by {
                if j < i {
                    assert(words@.take(i as int)[j] == t[j]);
                    assert(out@.subrange(8 * j, 8 * j + 8) =~= before.subrange(8 * j, 8 * j + 8));
                } else {
                    let b = out@.subrange(8 * j, 8 * j + 8);
                    assert(before.len() == 8 * j);
                    assert(b[0] == out@[8 * j] && b[1] == out@[8 * j + 1] && b[2] == out@[8 * j + 2]
                        && b[3] == out@[8 * j + 3] && b[4] == out@[8 * j + 4] && b[5] == out@[8 * j
                        + 5] && b[6] == out@[8 * j + 6] && b[7] == out@[8 * j + 7]);
                }
            }
        }
        i = i + 1;
    }
    assert(words@.take(i as int) =~= words@);
    out
}

/// The words whose little-endian bytes these are, where their number is a multiple of eight.
pub fn bytes_to_words(bytes: &[u8]) -> (r: Option<Vec<u64>>)
    ensures
        match r {
            Some(words) => are_bytes_of(bytes@, words@),
            None => bytes@.len() % 8 != 0,
        },
{
    if bytes.len() % 8 != 0 {
        return None;
    }
    let total: usize = bytes.len();
    let n: usize = total / 8;
    let mut out: Vec<u64> = Vec::new();
    let mut i: usize = 0;
    while i < n
        invariant
            i <= n,
            total == bytes@.len(),
            total == 8 * n,
            out@.len() == i,
            forall|j: int|
                0 <= j < i ==> #[trigger] out@[j] == word_value(
                    bytes@.subrange(8 * j, 8 * j + 8),
                ),
        decreases n - i,
    {
        let k: usize = 8 * i;
        let w: u64 = bytes[k] as u64 + 0x100 * (bytes[k + 1] as u64) + 0x1_0000 * (bytes[k
            + 2] as u64) + 0x100_0000 * (bytes[k + 3] as u64) + 0x1_0000_0000 * (bytes[k
            + 4] as u64) + 0x100_0000_0000 * (bytes[k + 5] as u64) + 0x1_0000_0000_0000 * (bytes[k
            + 6] as u64) + 0x100_0000_0000_0000 * (bytes[k + 7] as u64);
        proof {
            let b = bytes@.subrange(8 * i as int, 8 * i + 8);
            assert(b[0] == bytes@[k as int] && b[1] == bytes@[k + 1] && b[2] == bytes@[k + 2]
                && b[3] == bytes@[k + 3] && b[4] == bytes@[k + 4] && b[5] == bytes@[k + 5] && b[6]
                == bytes@[k + 6] && b[7] == bytes@[k + 7]);
        }
        out.push(w);
        i = i + 1;
    }
    Some(out)
}

/// Bytes stand for one list of words only.
pub proof fn law_words_are_determined(bytes: Seq<u8>, v: Seq<u64>, w: Seq<u64>)
    requires
        are_bytes_of(bytes, v),
        are_bytes_of(bytes, w),
    ensures
        v == w,
{
    assert forall|i: int| 0 <= i < v.len() implies v[i] == w[i] by {
        assert(v[i] == word_value(bytes.subrange(8 * i, 8 * i + 8)));
        assert(w[i] == word_value(bytes.subrange(8 * i, 8 * i + 8)));
    }
    assert(v =~= w);
}

proof fn lemma_low_byte(x: int, xs: int, y: int, ys: int)
    requires
        0 <= x < 0x100,
        0 <= y < 0x100,
        x + 0x100 * xs == y + 0x100 * ys,
    ensures
        x == y,
        xs == ys,
{
}

/// The bytes from `k` on, as a number.
spec fn tail_value(b: Seq<u8>, k: int) -> int
    decreases 8 - k,
{
    if k >= 8 {
        0
    } else {
        b[k] + 0x100 * tail_value(b, k + 1)
    }
}

proof fn lemma_tail_value(b: Seq<u8>)
    ensures
        tail_value(b, 0) == word_value(b),
{
    assert(tail_value(b, 8) == 0);
    assert(tail_value(b, 7) == b[7]);
    assert(tail_value(b, 6) == b[6] + 0x100 * b[7]);
    assert(tail_value(b, 5) == b[5] + 0x100 * b[6] + 0x1_0000 * b[7]);
    assert(tail_value(b, 4) == b[4] + 0x100 * b[5] + 0x1_0000 * b[6] + 0x100_0000 * b[7]);
    assert(tail_value(b, 3) == b[3] + 0x100 * tail_value(b, 4));
    assert(tail_value(b, 2) == b[2] + 0x100 * tail_value(b, 3));
    assert(tail_value(b, 1) == b[1] + 0x100 * tail_value(b, 2));
    assert(tail_value(b, 0) == b[0] + 0x100 * tail_value(b, 1));
}

proof fn lemma_same_bytes(x: Seq<u8>, y: Seq<u8>, k: int)
    requires
        0 <= k <= 8,
        tail_value(x, k) == tail_value(y, k),
    ensures
        forall|j: int| k <= j < 8 ==> x[j] == y[j],
    decreases 8 - k,
{
    if k < 8 {
        lemma_low_byte(x[k] as int, tail_value(x, k + 1), y[k] as int, tail_value(y, k + 1));
        lemma_same_bytes(x, y, k + 1);
    }
}

/// Words have one list of bytes only, so that reading the bytes of words gives the words back.
pub proof fn law_bytes_are_determined(b: Seq<u8>, c: Seq<u8>, words: Seq<u64>)
    requires
        are_bytes_of(b, words),
        are_bytes_of(c, words),
    ensures
        b == c,
{
    assert forall|k: int| 0 <= k < b.len() implies b[k] == c[k] by {
        let i = k / 8;
        let x = b.subrange(8 * i, 8 * i + 8);
        let y = c.subrange(8 * i, 8 * i + 8);
        assert(words[i] == word_value(x));
        assert(words[i] == word_value(y));
        lemma_tail_value(x);
        lemma_tail_value(y);
        lemma_same_bytes(x, y, 0);
        assert(x[k - 8 * i] == b[k]);
        assert(y[k - 8 * i] == c[k]);
    }
    assert(b =~= c);
}

} // verus!
