//! Text building blocks: numbers in a base, character sequences, literal comparison.
use vstd::prelude::*;
use vstd::string::StringExecFns;

verus! {

/// `String::push` appends one character.
pub assume_specification[ String::push ](s: &mut String, ch: char)
    ensures
        final(s)@ == old(s)@.push(ch),
;

/// The digit of value `d`, lower case above nine.
pub open spec fn digit_char(d: nat) -> char {
    if d < 10 {
        (48 + d) as u8 as char
    } else {
        (87 + d) as u8 as char
    }
}

/// The digits of `n` in `base`, most significant first.
pub open spec fn digits(n: nat, base: nat) -> Seq<char>
    decreases n,
{
    if n < base || base < 2 {
        seq![digit_char(n)]
    } else {
        proof {
            vstd::arithmetic::div_mod::lemma_div_decreases(n as int, base as int);
        }
        digits(n / base, base).push(digit_char(n % base))
    }
}

/// The decimal digits of `n`.
pub open spec fn dec(n: nat) -> Seq<char> {
    digits(n, 10)
}

/// The hexadecimal digits of `n`.
pub open spec fn hex(n: nat) -> Seq<char> {
    digits(n, 16)
}

/// Append the digits of `n` in `base`.
fn push_digits(out: &mut String, n: u64, base: u64)
    requires
        2 <= base <= 16,
    ensures
        final(out)@ == old(out)@ + digits(n as nat, base as nat),
    decreases n,
{
    proof {
        if n >= base {
            vstd::arithmetic::div_mod::lemma_div_decreases(n as int, base as int);
        }
        vstd::arithmetic::div_mod::lemma_mod_bound(n as int, base as int);
        if n < base {
            vstd::arithmetic::div_mod::lemma_small_mod(n as nat, base as nat);
        }
    }
    if n >= base {
        push_digits(out, n / base, base);
    }
    let d: u64 = n % base;
    let c: char = if d < 10 {
        (48 + d) as u8 as char
    } else {
        (87 + d) as u8 as char
    };
    let ghost before = out@;
    out.push(c);
    proof {
        assert(before.push(c) =~= before + seq![c]);
        if n >= base {
            assert(old(out)@ + digits((n / base) as nat, base as nat).push(c) =~= (old(out)@
                + digits((n / base) as nat, base as nat)).push(c));
        }
    }
}

/// Append the decimal digits of `n`.
pub fn push_dec(out: &mut String, n: u64)
    ensures
        final(out)@ == old(out)@ + dec(n as nat),
{
    push_digits(out, n, 10);
}

/// Append the hexadecimal digits of `n`.
pub fn push_hex(out: &mut String, n: u64)
    ensures
        final(out)@ == old(out)@ + hex(n as nat),
{
    push_digits(out, n, 16);
}

/// The decimal text of `n`.
pub fn dec_text(n: u64) -> (r: String)
    ensures
        r@ == dec(n as nat),
{
    let mut out: String = String::new();
    push_dec(&mut out, n);
    assert(out@ =~= dec(n as nat));
    out
}

/// The characters of a string.
pub fn chars_of(s: &str) -> (r: Vec<char>)
    ensures
        r@ == s@,
{
    let mut out: Vec<char> = Vec::new();
    let ghost mut n: int = 0;
    for c in it: s.chars()
        invariant
            it.seq() == s@,
            n == it.index(),
            out@ == s@.take(n),
    {
        out.push(c);
        proof {
            assert(s@.take(n + 1) =~= s@.take(n).push(c));
            n = n + 1;
        }
    }
    assert(s@.take(n) =~= s@);
    out
}

/// The string made of the given characters.
pub fn string_of(cs: &[char]) -> (r: String)
    ensures
        r@ == cs@,
{
    let mut out: String = String::new();
    let mut i: usize = 0;
    while i < cs.len()
        invariant
            i <= cs@.len(),
            out@ == cs@.take(i as int),
        decreases cs@.len() - i,
    {
        out.push(cs[i]);
        i = i + 1;
        assert(cs@.take(i as int) =~= cs@.take(i - 1).push(cs@[i - 1]));
    }
    assert(cs@.take(i as int) =~= cs@);
    out
}

/// Whether two strings hold the same characters.
pub fn str_eq(a: &str, b: &str) -> (r: bool)
    ensures
        r == (a@ == b@),
{
    let x: String = a.to_owned();
    let y: String = b.to_owned();
    x == y
}

/// Concatenation of two strings.
pub fn concat2(a: &str, b: &str) -> (r: String)
    ensures
        r@ == a@ + b@,
{
    let mut out: String = a.to_owned();
    out.append(b);
    out
}

proof fn lemma_digit_char(a: nat, b: nat)
    requires
        a < 16,
        b < 16,
    ensures
        digit_char(a) == digit_char(b) ==> a == b,
        digit_char(a) != ',',
{
    let x: u8 = if a < 10 {
        (48 + a) as u8
    } else {
        (87 + a) as u8
    };
    let y: u8 = if b < 10 {
        (48 + b) as u8
    } else {
        (87 + b) as u8
    };
    assert(digit_char(a) as u32 == x as u32);
    assert(digit_char(b) as u32 == y as u32);
    assert(',' as u32 == 44u32);
}

/// Different numbers have different digits.
pub proof fn lemma_digits_injective(n: nat, m: nat, base: nat)
    requires
        2 <= base <= 16,
        digits(n, base) == digits(m, base),
    ensures
        n == m,
    decreases n,
{
    let d = digits(n, base);
    let e = digits(m, base);
    let nb = n % base;
    let mb = m % base;
    vstd::arithmetic::div_mod::lemma_mod_bound(n as int, base as int);
    vstd::arithmetic::div_mod::lemma_mod_bound(m as int, base as int);
    lemma_digits_nonempty(n, base);
    lemma_digits_nonempty(m, base);
    if n < base {
        vstd::arithmetic::div_mod::lemma_small_mod(n, base);
    }
    if m < base {
        vstd::arithmetic::div_mod::lemma_small_mod(m, base);
    }
    assert(d.last() == digit_char(nb));
    assert(e.last() == digit_char(mb));
    lemma_digit_char(nb, mb);
    if n >= base {
        lemma_digits_nonempty(n / base, base);
        assert(d.len() >= 2);
        assert(m >= base);
        assert(d.drop_last() =~= digits(n / base, base));
        assert(e.drop_last() =~= digits(m / base, base));
        vstd::arithmetic::div_mod::lemma_div_decreases(n as int, base as int);
        lemma_digits_injective(n / base, m / base, base);
        vstd::arithmetic::div_mod::lemma_fundamental_div_mod(n as int, base as int);
        vstd::arithmetic::div_mod::lemma_fundamental_div_mod(m as int, base as int);
    } else if m >= base {
        lemma_digits_nonempty(m / base, base);
        assert(e.len() >= 2);
    }
}

proof fn lemma_digits_nonempty(n: nat, base: nat)
    requires
        2 <= base <= 16,
    ensures
        digits(n, base).len() >= 1,
        forall|i: int| 0 <= i < digits(n, base).len() ==> digits(n, base)[i] != ',',
    decreases n,
{
    vstd::arithmetic::div_mod::lemma_mod_bound(n as int, base as int);
    lemma_digit_char(n % base, 0);
    if n < base {
        lemma_digit_char(n, 0);
    } else {
        vstd::arithmetic::div_mod::lemma_div_decreases(n as int, base as int);
        lemma_digits_nonempty(n / base, base);
    }
}

/// A comma splits a text in one way where the part before it has no comma.
pub proof fn lemma_comma_splits(n: nat, x: Seq<char>, m: nat, y: Seq<char>)
    requires
        hex(n) + seq![','] + x == hex(m) + seq![','] + y,
    ensures
        n == m,
        x == y,
{
    let a = hex(n);
    let b = hex(m);
    let s = a + seq![','] + x;
    let t = b + seq![','] + y;
    lemma_digits_nonempty(n, 16);
    lemma_digits_nonempty(m, 16);
    assert(s[a.len() as int] == ',');
    assert(t[b.len() as int] == ',');
    if a.len() < b.len() {
        assert(t[a.len() as int] == b[a.len() as int]);
    } else if b.len() < a.len() {
        assert(s[b.len() as int] == a[b.len() as int]);
    }
    assert(a =~= s.take(a.len() as int));
    assert(b =~= t.take(b.len() as int));
    lemma_digits_injective(n, m, 16);
    assert(x =~= s.skip(a.len() as int + 1));
    assert(y =~= t.skip(b.len() as int + 1));
}

/// What the `Debug` format of a string makes of a text: a literal, with quotation marks.
pub uninterp spec fn literal(s: Seq<char>) -> Seq<char>;

/// The `Debug` format of `str` gives a literal, which depends on the text alone.
#[verifier::external_body]
pub(crate) fn literal_of(s: &str) -> (r: String)
    ensures
        r@ == literal(s@),
{
    format!("{:?}", s)
}

} // verus!
