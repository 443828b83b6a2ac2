//! The z-base-32 encoding: a human-friendly base-32 alphabet over the bit
//! stream of a byte string, five bits per character, most significant bit
//! first, zero-padded to a character boundary.
//!
//! Decoding truncates back to a byte boundary, so decoding an encoding
//! returns the original bytes exactly; that round trip is proved here.

use vstd::prelude::*;

use crate::error::Error;

verus! {

/// 1 for a set bit, 0 for a clear one.
pub open spec fn b2u(b: bool) -> u8 {
    if b {
        1u8
    } else {
        0u8
    }
}

/// Bit `k` of a byte, most significant first (`k` in `0..8`).
pub open spec fn spec_bit_of_byte(b: u8, k: int) -> bool {
    (b >> ((7 - k) as u8)) & 1u8 == 1u8
}

/// The bit stream of a byte string, most significant bit of each byte first.
pub open spec fn spec_bits(s: Seq<u8>) -> Seq<bool> {
    Seq::new((8 * s.len()) as nat, |i: int| spec_bit_of_byte(s[i / 8], i % 8))
}

/// The bit stream padded with zeros past its end.
pub open spec fn spec_padded_bit(bits: Seq<bool>, i: int) -> bool {
    0 <= i < bits.len() && bits[i]
}

/// The value of the five bits starting at `5 * q`, zero-padded.
pub open spec fn spec_quint_of(bits: Seq<bool>, q: int) -> u8 {
    (16 * b2u(spec_padded_bit(bits, 5 * q)) + 8 * b2u(spec_padded_bit(bits, 5 * q + 1)) + 4 * b2u(
        spec_padded_bit(bits, 5 * q + 2),
    ) + 2 * b2u(spec_padded_bit(bits, 5 * q + 3)) + b2u(spec_padded_bit(bits, 5 * q + 4))) as u8
}

/// The z-base-32 character for a five-bit value.
#[verifier::opaque]
pub open spec fn spec_zb_char(v: u8) -> char {
    if v == 0 {
        'y'
    } else if v == 1 {
        'b'
    } else if v == 2 {
        'n'
    } else if v == 3 {
        'd'
    } else if v == 4 {
        'r'
    } else if v == 5 {
        'f'
    } else if v == 6 {
        'g'
    } else if v == 7 {
        '8'
    } else if v == 8 {
        'e'
    } else if v == 9 {
        'j'
    } else if v == 10 {
        'k'
    } else if v == 11 {
        'm'
    } else if v == 12 {
        'c'
    } else if v == 13 {
        'p'
    } else if v == 14 {
        'q'
    } else if v == 15 {
        'x'
    } else if v == 16 {
        'o'
    } else if v == 17 {
        't'
    } else if v == 18 {
        '1'
    } else if v == 19 {
        'u'
    } else if v == 20 {
        'w'
    } else if v == 21 {
        'i'
    } else if v == 22 {
        's'
    } else if v == 23 {
        'z'
    } else if v == 24 {
        'a'
    } else if v == 25 {
        '3'
    } else if v == 26 {
        '4'
    } else if v == 27 {
        '5'
    } else if v == 28 {
        'h'
    } else if v == 29 {
        '7'
    } else if v == 30 {
        '6'
    } else {
        '9'
    }
}

/// The five-bit value of a z-base-32 character, if it is one.
#[verifier::opaque]
pub open spec fn spec_zb_val(c: char) -> Option<u8> {
    if c == 'y' {
        Some(0u8)
    } else if c == 'b' {
        Some(1u8)
    } else if c == 'n' {
        Some(2u8)
    } else if c == 'd' {
        Some(3u8)
    } else if c == 'r' {
        Some(4u8)
    } else if c == 'f' {
        Some(5u8)
    } else if c == 'g' {
        Some(6u8)
    } else if c == '8' {
        Some(7u8)
    } else if c == 'e' {
        Some(8u8)
    } else if c == 'j' {
        Some(9u8)
    } else if c == 'k' {
        Some(10u8)
    } else if c == 'm' {
        Some(11u8)
    } else if c == 'c' {
        Some(12u8)
    } else if c == 'p' {
        Some(13u8)
    } else if c == 'q' {
        Some(14u8)
    } else if c == 'x' {
        Some(15u8)
    } else if c == 'o' {
        Some(16u8)
    } else if c == 't' {
        Some(17u8)
    } else if c == '1' {
        Some(18u8)
    } else if c == 'u' {
        Some(19u8)
    } else if c == 'w' {
        Some(20u8)
    } else if c == 'i' {
        Some(21u8)
    } else if c == 's' {
        Some(22u8)
    } else if c == 'z' {
        Some(23u8)
    } else if c == 'a' {
        Some(24u8)
    } else if c == '3' {
        Some(25u8)
    } else if c == '4' {
        Some(26u8)
    } else if c == '5' {
        Some(27u8)
    } else if c == 'h' {
        Some(28u8)
    } else if c == '7' {
        Some(29u8)
    } else if c == '6' {
        Some(30u8)
    } else if c == '9' {
        Some(31u8)
    } else {
        None
    }
}

/// How many characters the encoding of `n` bytes takes.
pub open spec fn spec_zb_nquints(n: int) -> int {
    (8 * n + 4) / 5
}

/// The z-base-32 encoding of a byte string.
pub open spec fn spec_zb_encode(s: Seq<u8>) -> Seq<char> {
    Seq::new(
        spec_zb_nquints(s.len() as int) as nat,
        |q: int| spec_zb_char(spec_quint_of(spec_bits(s), q)),
    )
}

/// Whether every character of `t` belongs to the z-base-32 alphabet.
pub open spec fn spec_zb_ok(t: Seq<char>) -> bool {
    forall|i: int| 0 <= i < t.len() ==> (#[trigger] spec_zb_val(t[i])) is Some
}

/// Bit `k` of a five-bit value, most significant first (`k` in `0..5`).
pub open spec fn spec_bit_of_quint(v: u8, k: int) -> bool {
    (v >> ((4 - k) as u8)) & 1u8 == 1u8
}

/// The bit stream a well-formed z-base-32 string denotes.
pub open spec fn spec_quint_bits(t: Seq<char>) -> Seq<bool> {
    Seq::new((5 * t.len()) as nat, |i: int| spec_bit_of_quint(spec_zb_val(t[i / 5])->Some_0, i % 5))
}

/// The byte assembled from the eight bits starting at `8 * j`.
pub open spec fn spec_byte_of(bits: Seq<bool>, j: int) -> u8 {
    (128 * b2u(bits[8 * j]) + 64 * b2u(bits[8 * j + 1]) + 32 * b2u(bits[8 * j + 2]) + 16 * b2u(
        bits[8 * j + 3],
    ) + 8 * b2u(bits[8 * j + 4]) + 4 * b2u(bits[8 * j + 5]) + 2 * b2u(bits[8 * j + 6]) + b2u(
        bits[8 * j + 7],
    )) as u8
}

/// The bytes a well-formed z-base-32 string denotes; trailing padding bits
/// are dropped.
pub open spec fn spec_zb_decode(t: Seq<char>) -> Seq<u8> {
    Seq::new((5 * t.len() / 8) as nat, |j: int| spec_byte_of(spec_quint_bits(t), j))
}

/// The alphabet is exactly inverted by the value table.
pub proof fn lemma_zb_char_val(v: u8)
    requires
        v < 32,
    ensures
        spec_zb_val(spec_zb_char(v)) == Some(v),
{
    reveal(spec_zb_char);
    reveal(spec_zb_val);
}

/// Reading the bits of a five-bit value built from five bits gives those
/// bits back.
proof fn lemma_quint_roundtrip(a: u8, b: u8, c: u8, d: u8, e: u8)
    requires
        a <= 1 && b <= 1 && c <= 1 && d <= 1 && e <= 1,
    ensures
        (16 * a + 8 * b + 4 * c + 2 * d + e) < 32,
        ((16 * a + 8 * b + 4 * c + 2 * d + e) as u8 >> 4u8) & 1u8 == a,
        ((16 * a + 8 * b + 4 * c + 2 * d + e) as u8 >> 3u8) & 1u8 == b,
        ((16 * a + 8 * b + 4 * c + 2 * d + e) as u8 >> 2u8) & 1u8 == c,
        ((16 * a + 8 * b + 4 * c + 2 * d + e) as u8 >> 1u8) & 1u8 == d,
        ((16 * a + 8 * b + 4 * c + 2 * d + e) as u8 >> 0u8) & 1u8 == e,
{
    let v: u8 = (16 * a + 8 * b + 4 * c + 2 * d + e) as u8;
    assert(a <= 1 && b <= 1 && c <= 1 && d <= 1 && e <= 1 && v == 16 * a + 8 * b + 4 * c + 2 * d
        + e ==> (v >> 4u8) & 1u8 == a && (v >> 3u8) & 1u8 == b && (v >> 2u8) & 1u8 == c && (v
        >> 1u8) & 1u8 == d && (v >> 0u8) & 1u8 == e) by (bit_vector);
}

/// A byte equals the value assembled from its own eight bits.
proof fn lemma_byte_roundtrip(b: u8)
    ensures
        128 * b2u(spec_bit_of_byte(b, 0)) + 64 * b2u(spec_bit_of_byte(b, 1)) + 32 * b2u(
            spec_bit_of_byte(b, 2),
        ) + 16 * b2u(spec_bit_of_byte(b, 3)) + 8 * b2u(spec_bit_of_byte(b, 4)) + 4 * b2u(
            spec_bit_of_byte(b, 5),
        ) + 2 * b2u(spec_bit_of_byte(b, 6)) + b2u(spec_bit_of_byte(b, 7)) == b,
{
    assert(128 * ((b >> 7u8) & 1u8) + 64 * ((b >> 6u8) & 1u8) + 32 * ((b >> 5u8) & 1u8) + 16 * ((b
        >> 4u8) & 1u8) + 8 * ((b >> 3u8) & 1u8) + 4 * ((b >> 2u8) & 1u8) + 2 * ((b >> 1u8) & 1u8)
        + ((b >> 0u8) & 1u8) == b) by (bit_vector);
    assert forall|k: int| 0 <= k < 8 implies b2u(spec_bit_of_byte(b, k)) == (b >> ((7 - k) as u8))
        & 1u8 by {
        let sh: u8 = (7 - k) as u8;
        assert((b >> sh) & 1u8 == 0u8 || (b >> sh) & 1u8 == 1u8) by (bit_vector);
    }
}

/// Helper arithmetic for the length of a decoded encoding.
proof fn lemma_zb_lengths(n: int)
    requires
        n >= 0,
    ensures
        8 * n <= 5 * spec_zb_nquints(n) <= 8 * n + 4,
        5 * spec_zb_nquints(n) / 8 == n,
{
    let m = spec_zb_nquints(n);
    vstd::arithmetic::div_mod::lemma_fundamental_div_mod(8 * n + 4, 5);
    vstd::arithmetic::div_mod::lemma_mod_bound(8 * n + 4, 5);
    assert(5 * m <= 8 * n + 4);
    assert(5 * m >= 8 * n);
    vstd::arithmetic::div_mod::lemma_fundamental_div_mod(5 * m, 8);
    vstd::arithmetic::div_mod::lemma_mod_bound(5 * m, 8);
    let q = 5 * m / 8;
    assert(8 * q <= 5 * m < 8 * q + 8);
    if q > n {
        assert(8 * q >= 8 * n + 8);
        assert(false);
    }
    if q < n {
        assert(8 * q + 8 <= 8 * n);
        assert(false);
    }
}

/// Decoding an encoding gives back the original bytes, and the encoding is
/// always well-formed.  This is the z-base-32 round trip on byte strings.
#[verifier::rlimit(100)]
pub proof fn lemma_zb_roundtrip(s: Seq<u8>)
    ensures
        spec_zb_ok(spec_zb_encode(s)),
        spec_zb_decode(spec_zb_encode(s)) == s,
{
    let n = s.len() as int;
    let bits = spec_bits(s);
    let enc = spec_zb_encode(s);
    let m = spec_zb_nquints(n);
    lemma_zb_lengths(n);
    assert forall|q: int| 0 <= q < m implies (#[trigger] spec_zb_val(enc[q])) == Some(
        spec_quint_of(bits, q),
    ) by {
        lemma_quint_roundtrip(
            b2u(spec_padded_bit(bits, 5 * q)),
            b2u(spec_padded_bit(bits, 5 * q + 1)),
            b2u(spec_padded_bit(bits, 5 * q + 2)),
            b2u(spec_padded_bit(bits, 5 * q + 3)),
            b2u(spec_padded_bit(bits, 5 * q + 4)),
        );
        lemma_zb_char_val(spec_quint_of(bits, q));
    }
    let dbits = spec_quint_bits(enc);
    assert forall|i: int| 0 <= i < 5 * m implies #[trigger] dbits[i] == spec_padded_bit(
        bits,
        i,
    ) by {
        let q = i / 5;
        let k = i % 5;
        vstd::arithmetic::div_mod::lemma_fundamental_div_mod(i, 5);
        lemma_quint_roundtrip(
            b2u(spec_padded_bit(bits, 5 * q)),
            b2u(spec_padded_bit(bits, 5 * q + 1)),
            b2u(spec_padded_bit(bits, 5 * q + 2)),
            b2u(spec_padded_bit(bits, 5 * q + 3)),
            b2u(spec_padded_bit(bits, 5 * q + 4)),
        );
        assert(dbits[i] == spec_bit_of_quint(spec_quint_of(bits, q), k));
    }
    let dec = spec_zb_decode(enc);
    assert(dec.len() == n);
    assert forall|j: int| 0 <= j < n implies #[trigger] dec[j] == s[j] by {
        lemma_byte_roundtrip(s[j]);
        assert forall|k: int| 0 <= k < 8 implies #[trigger] dbits[8 * j + k] == spec_bit_of_byte(
            s[j],
            k,
        ) by {
            assert(8 * j + k < 8 * n <= 5 * m);
            assert(dbits[8 * j + k] == spec_padded_bit(bits, 8 * j + k));
            assert(bits[8 * j + k] == spec_bit_of_byte(s[(8 * j + k) / 8], (8 * j + k) % 8));
            assert((8 * j + k) / 8 == j && (8 * j + k) % 8 == k) by {
                vstd::arithmetic::div_mod::lemma_fundamental_div_mod(8 * j + k, 8);
            }
        }
    }
    assert(dec =~= s);
}

fn zb_char_of(v: u8) -> (r: &'static str)
    requires
        v < 32,
    ensures
        r@ == seq![spec_zb_char(v)],
{
    proof {
        reveal_strlit("y");
        reveal_strlit("b");
        reveal_strlit("n");
        reveal_strlit("d");
        reveal_strlit("r");
        reveal_strlit("f");
        reveal_strlit("g");
        reveal_strlit("8");
        reveal_strlit("e");
        reveal_strlit("j");
        reveal_strlit("k");
        reveal_strlit("m");
        reveal_strlit("c");
        reveal_strlit("p");
        reveal_strlit("q");
        reveal_strlit("x");
        reveal_strlit("o");
        reveal_strlit("t");
        reveal_strlit("1");
        reveal_strlit("u");
        reveal_strlit("w");
        reveal_strlit("i");
        reveal_strlit("s");
        reveal_strlit("z");
        reveal_strlit("a");
        reveal_strlit("3");
        reveal_strlit("4");
        reveal_strlit("5");
        reveal_strlit("h");
        reveal_strlit("7");
        reveal_strlit("6");
        reveal_strlit("9");
    }
    proof {
        reveal(spec_zb_char);
    }
    let r = if v == 0 {
        "y"
    } else if v == 1 {
        "b"
    } else if v == 2 {
        "n"
    } else if v == 3 {
        "d"
    } else if v == 4 {
        "r"
    } else if v == 5 {
        "f"
    } else if v == 6 {
        "g"
    } else if v == 7 {
        "8"
    } else if v == 8 {
        "e"
    } else if v == 9 {
        "j"
    } else if v == 10 {
        "k"
    } else if v == 11 {
        "m"
    } else if v == 12 {
        "c"
    } else if v == 13 {
        "p"
    } else if v == 14 {
        "q"
    } else if v == 15 {
        "x"
    } else if v == 16 {
        "o"
    } else if v == 17 {
        "t"
    } else if v == 18 {
        "1"
    } else if v == 19 {
        "u"
    } else if v == 20 {
        "w"
    } else if v == 21 {
        "i"
    } else if v == 22 {
        "s"
    } else if v == 23 {
        "z"
    } else if v == 24 {
        "a"
    } else if v == 25 {
        "3"
    } else if v == 26 {
        "4"
    } else if v == 27 {
        "5"
    } else if v == 28 {
        "h"
    } else if v == 29 {
        "7"
    } else if v == 30 {
        "6"
    } else {
        "9"
    };
    assert(r@ =~= seq![spec_zb_char(v)]);
    r
}

fn zb_val_of(c: char) -> (r: Option<u8>)
    ensures
        r == spec_zb_val(c),
{
    proof {
        reveal(spec_zb_val);
    }
    if c == 'y' {
        Some(0u8)
    } else if c == 'b' {
        Some(1u8)
    } else if c == 'n' {
        Some(2u8)
    } else if c == 'd' {
        Some(3u8)
    } else if c == 'r' {
        Some(4u8)
    } else if c == 'f' {
        Some(5u8)
    } else if c == 'g' {
        Some(6u8)
    } else if c == '8' {
        Some(7u8)
    } else if c == 'e' {
        Some(8u8)
    } else if c == 'j' {
        Some(9u8)
    } else if c == 'k' {
        Some(10u8)
    } else if c == 'm' {
        Some(11u8)
    } else if c == 'c' {
        Some(12u8)
    } else if c == 'p' {
        Some(13u8)
    } else if c == 'q' {
        Some(14u8)
    } else if c == 'x' {
        Some(15u8)
    } else if c == 'o' {
        Some(16u8)
    } else if c == 't' {
        Some(17u8)
    } else if c == '1' {
        Some(18u8)
    } else if c == 'u' {
        Some(19u8)
    } else if c == 'w' {
        Some(20u8)
    } else if c == 'i' {
        Some(21u8)
    } else if c == 's' {
        Some(22u8)
    } else if c == 'z' {
        Some(23u8)
    } else if c == 'a' {
        Some(24u8)
    } else if c == '3' {
        Some(25u8)
    } else if c == '4' {
        Some(26u8)
    } else if c == '5' {
        Some(27u8)
    } else if c == 'h' {
        Some(28u8)
    } else if c == '7' {
        Some(29u8)
    } else if c == '6' {
        Some(30u8)
    } else if c == '9' {
        Some(31u8)
    } else {
        None
    }
}

#[verifier::rlimit(100)]
fn assemble_byte(bits: &Vec<bool>, j: usize) -> (r: u8)
    requires
        8 * j + 7 < bits@.len(),
    ensures
        r == spec_byte_of(bits@, j as int),
{
    let n: usize = bits.len();
    let mut b: u8 = 0;
    if bits[8 * j] {
        b += 128;
    }
    if bits[8 * j + 1] {
        b += 64;
    }
    if bits[8 * j + 2] {
        b += 32;
    }
    if bits[8 * j + 3] {
        b += 16;
    }
    if bits[8 * j + 4] {
        b += 8;
    }
    if bits[8 * j + 5] {
        b += 4;
    }
    if bits[8 * j + 6] {
        b += 2;
    }
    if bits[8 * j + 7] {
        b += 1;
    }
    b
}

fn padded_bit(bits: &Vec<bool>, i: usize) -> (r: bool)
    ensures
        r == spec_padded_bit(bits@, i as int),
{
    if i < bits.len() {
        bits[i]
    } else {
        false
    }
}

/// Encodes a byte string in z-base-32.
pub fn zb_encode(bytes: &[u8]) -> (r: String)
    requires
        8 * bytes@.len() + 4 <= usize::MAX,
    ensures
        r@ == spec_zb_encode(bytes@),
{
    let n: usize = bytes.len();
    let mut bits: Vec<bool> = Vec::new();
    let mut i: usize = 0;
    while i < n
        invariant
            0 <= i <= n,
            n == bytes@.len(),
            8 * n + 4 <= usize::MAX,
            bits@ == spec_bits(bytes@).take(8 * i),
        decreases n - i,
    {
        let b: u8 = bytes[i];
        let mut k: usize = 0;
        while k < 8
            invariant
                0 <= k <= 8,
                0 <= i < n,
                n == bytes@.len(),
                8 * n + 4 <= usize::MAX,
                b == bytes@[i as int],
                bits@ == spec_bits(bytes@).take(8 * i + k),
            decreases 8 - k,
        {
            let sh: u8 = (7 - k) as u8;
            bits.push(((b >> sh) & 1u8) == 1u8);
            proof {
                let idx = 8 * (i as int) + k;
                assert(idx / 8 == i && idx % 8 == k) by {
                    vstd::arithmetic::div_mod::lemma_fundamental_div_mod(idx, 8);
                }
                assert(spec_bits(bytes@)[idx] == spec_bit_of_byte(b, k as int));
                assert(bits@ =~= spec_bits(bytes@).take(8 * i + k + 1));
            }
            k += 1;
        }
        i += 1;
    }
    proof {
        assert(bits@ =~= spec_bits(bytes@));
    }
    let nq: usize = (8 * n + 4) / 5;
    let mut out = String::new();
    let mut q: usize = 0;
    while q < nq
        invariant
            0 <= q <= nq,
            n == bytes@.len(),
            8 * n + 4 <= usize::MAX,
            nq == spec_zb_nquints(n as int),
            bits@ == spec_bits(bytes@),
            out@ == spec_zb_encode(bytes@).take(q as int),
        decreases nq - q,
    {
        proof {
            lemma_zb_lengths(n as int);
        }
        let g0 = padded_bit(&bits, 5 * q);
        let g1 = padded_bit(&bits, 5 * q + 1);
        let g2 = padded_bit(&bits, 5 * q + 2);
        let g3 = padded_bit(&bits, 5 * q + 3);
        let g4 = padded_bit(&bits, 5 * q + 4);
        let mut v: u8 = 0;
        if g0 {
            v += 16;
        }
        if g1 {
            v += 8;
        }
        if g2 {
            v += 4;
        }
        if g3 {
            v += 2;
        }
        if g4 {
            v += 1;
        }
        assert(v == spec_quint_of(spec_bits(bytes@), q as int));
        out.append(zb_char_of(v));
        proof {
            assert(out@ =~= spec_zb_encode(bytes@).take(q + 1));
        }
        q += 1;
    }
    proof {
        assert(out@ =~= spec_zb_encode(bytes@));
    }
    out
}

/// Decodes a z-base-32 string back into bytes.
///
/// Succeeds exactly on strings made of alphabet characters.
#[verifier::rlimit(100)]
pub fn zb_decode(s: &str) -> (r: Result<Vec<u8>, Error>)
    requires
        5 * s@.len() <= usize::MAX,
    ensures
        r is Ok <==> spec_zb_ok(s@),
        r matches Ok(v) ==> v@ == spec_zb_decode(s@),
        r matches Err(e) ==> e is FailedToParse,
{
    let m: usize = s.unicode_len();
    let mut quints: Vec<u8> = Vec::new();
    let mut i: usize = 0;
    while i < m
        invariant
            0 <= i <= m,
            m == s@.len(),
            5 * m <= usize::MAX,
            quints@.len() == i,
            forall|k: int| 0 <= k < i ==> (#[trigger] spec_zb_val(s@[k])) is Some,
            forall|k: int| 0 <= k < i ==> quints@[k] == spec_zb_val(s@[k])->Some_0,
        decreases m - i,
    {
        match zb_val_of(s.get_char(i)) {
            Some(v) => {
                quints.push(v);
            },
            None => {
                return Err(
                    Error::FailedToParse(String::from_str("invalid z-base-32 character")),
                );
            },
        }
        i += 1;
    }
    let mut bits: Vec<bool> = Vec::new();
    let mut i2: usize = 0;
    while i2 < m
        invariant
            0 <= i2 <= m,
            m == s@.len(),
            5 * m <= usize::MAX,
            quints@.len() == m,
            forall|k: int| 0 <= k < m ==> (#[trigger] spec_zb_val(s@[k])) is Some,
            forall|k: int| 0 <= k < m ==> quints@[k] == spec_zb_val(s@[k])->Some_0,
            bits@ == spec_quint_bits(s@).take(5 * i2),
        decreases m - i2,
    {
        let v: u8 = quints[i2];
        let mut k: usize = 0;
        while k < 5
            invariant
                0 <= k <= 5,
                0 <= i2 < m,
                m == s@.len(),
                5 * m <= usize::MAX,
                quints@.len() == m,
                v == quints@[i2 as int],
                forall|kk: int| 0 <= kk < m ==> (#[trigger] spec_zb_val(s@[kk])) is Some,
                forall|kk: int| 0 <= kk < m ==> quints@[kk] == spec_zb_val(s@[kk])->Some_0,
                bits@ == spec_quint_bits(s@).take(5 * i2 + k),
            decreases 5 - k,
        {
            let sh: u8 = (4 - k) as u8;
            bits.push(((v >> sh) & 1u8) == 1u8);
            proof {
                let idx = 5 * (i2 as int) + k;
                assert(idx / 5 == i2 && idx % 5 == k) by {
                    vstd::arithmetic::div_mod::lemma_fundamental_div_mod(idx, 5);
                }
                assert(spec_quint_bits(s@)[idx] == spec_bit_of_quint(v, k as int));
                assert(bits@ =~= spec_quint_bits(s@).take(5 * i2 + k + 1));
            }
            k += 1;
        }
        i2 += 1;
    }
    proof {
        assert(bits@ =~= spec_quint_bits(s@));
    }
    let nb: usize = 5 * m / 8;
    let mut out: Vec<u8> = Vec::new();
    let mut j: usize = 0;
    while j < nb
        invariant
            0 <= j <= nb,
            m == s@.len(),
            5 * m <= usize::MAX,
            nb == 5 * m / 8,
            bits@ == spec_quint_bits(s@),
            bits@.len() == 5 * m,
            out@.len() == j,
            forall|k: int| 0 <= k < j ==> out@[k] == spec_byte_of(bits@, k),
        decreases nb - j,
    {
        proof {
            vstd::arithmetic::div_mod::lemma_fundamental_div_mod(5 * m, 8);
            vstd::arithmetic::div_mod::lemma_mod_bound(5 * m, 8);
            assert(8 * j + 7 < 5 * m);
        }
        let b: u8 = assemble_byte(&bits, j);
        out.push(b);
        j += 1;
    }
    proof {
        assert(out@ =~= spec_zb_decode(s@));
    }
    Ok(out)
}

} // verus!
