//! Hexadecimal encoding and decoding of byte strings, used for the
//! user-facing display of public keys and for parsing keys out of hex input.

use vstd::prelude::*;

use crate::error::Error;

verus! {

/// The lower-case hex character for a digit value below 16.
pub open spec fn spec_hex_char(v: u8) -> char {
    if v == 0 {
        '0'
    } else if v == 1 {
        '1'
    } else if v == 2 {
        '2'
    } else if v == 3 {
        '3'
    } else if v == 4 {
        '4'
    } else if v == 5 {
        '5'
    } else if v == 6 {
        '6'
    } else if v == 7 {
        '7'
    } else if v == 8 {
        '8'
    } else if v == 9 {
        '9'
    } else if v == 10 {
        'a'
    } else if v == 11 {
        'b'
    } else if v == 12 {
        'c'
    } else if v == 13 {
        'd'
    } else if v == 14 {
        'e'
    } else {
        'f'
    }
}

/// The upper-case hex character for a digit value below 16.
pub open spec fn spec_hex_char_upper(v: u8) -> char {
    if v == 10 {
        'A'
    } else if v == 11 {
        'B'
    } else if v == 12 {
        'C'
    } else if v == 13 {
        'D'
    } else if v == 14 {
        'E'
    } else if v == 15 {
        'F'
    } else {
        spec_hex_char(v)
    }
}

/// The digit value of a hex character, accepting both cases.
pub open spec fn spec_hex_val(c: char) -> Option<u8> {
    if c == '0' {
        Some(0u8)
    } else if c == '1' {
        Some(1u8)
    } else if c == '2' {
        Some(2u8)
    } else if c == '3' {
        Some(3u8)
    } else if c == '4' {
        Some(4u8)
    } else if c == '5' {
        Some(5u8)
    } else if c == '6' {
        Some(6u8)
    } else if c == '7' {
        Some(7u8)
    } else if c == '8' {
        Some(8u8)
    } else if c == '9' {
        Some(9u8)
    } else if c == 'a' || c == 'A' {
        Some(10u8)
    } else if c == 'b' || c == 'B' {
        Some(11u8)
    } else if c == 'c' || c == 'C' {
        Some(12u8)
    } else if c == 'd' || c == 'D' {
        Some(13u8)
    } else if c == 'e' || c == 'E' {
        Some(14u8)
    } else if c == 'f' || c == 'F' {
        Some(15u8)
    } else {
        None
    }
}

/// The lower-case hex rendering of a byte string: two characters per byte,
/// high nibble first.
pub open spec fn spec_hex_encode(s: Seq<u8>) -> Seq<char> {
    Seq::new(
        (2 * s.len()) as nat,
        |i: int|
            if i % 2 == 0 {
                spec_hex_char(s[i / 2] >> 4u8)
            } else {
                spec_hex_char(s[i / 2] & 15u8)
            },
    )
}

/// The upper-case hex rendering of a byte string.
pub open spec fn spec_hex_encode_upper(s: Seq<u8>) -> Seq<char> {
    Seq::new(
        (2 * s.len()) as nat,
        |i: int|
            if i % 2 == 0 {
                spec_hex_char_upper(s[i / 2] >> 4u8)
            } else {
                spec_hex_char_upper(s[i / 2] & 15u8)
            },
    )
}

/// Whether a character string is well-formed hex: even length, all digits.
pub open spec fn spec_hex_ok(t: Seq<char>) -> bool {
    &&& t.len() % 2 == 0
    &&& forall|i: int| 0 <= i < t.len() ==> (#[trigger] spec_hex_val(t[i])) is Some
}

/// The bytes a well-formed hex string denotes.
pub open spec fn spec_hex_decode(t: Seq<char>) -> Seq<u8> {
    Seq::new(
        (t.len() / 2) as nat,
        |j: int|
            (16 * spec_hex_val(t[2 * j])->Some_0 + spec_hex_val(t[2 * j + 1])->Some_0) as u8,
    )
}

fn hex_char_of(v: u8, upper: bool) -> (r: &'static str)
    requires
        v < 16,
    ensures
        !upper ==> r@ == seq![spec_hex_char(v)],
        upper ==> r@ == seq![spec_hex_char_upper(v)],
{
    proof {
        reveal_strlit("0");
        reveal_strlit("1");
        reveal_strlit("2");
        reveal_strlit("3");
        reveal_strlit("4");
        reveal_strlit("5");
        reveal_strlit("6");
        reveal_strlit("7");
        reveal_strlit("8");
        reveal_strlit("9");
        reveal_strlit("a");
        reveal_strlit("b");
        reveal_strlit("c");
        reveal_strlit("d");
        reveal_strlit("e");
        reveal_strlit("f");
        reveal_strlit("A");
        reveal_strlit("B");
        reveal_strlit("C");
        reveal_strlit("D");
        reveal_strlit("E");
        reveal_strlit("F");
    }
    let r = if v == 0 {
        "0"
    } else if v == 1 {
        "1"
    } else if v == 2 {
        "2"
    } else if v == 3 {
        "3"
    } else if v == 4 {
        "4"
    } else if v == 5 {
        "5"
    } else if v == 6 {
        "6"
    } else if v == 7 {
        "7"
    } else if v == 8 {
        "8"
    } else if v == 9 {
        "9"
    } else if v == 10 {
        if upper {
            "A"
        } else {
            "a"
        }
    } else if v == 11 {
        if upper {
            "B"
        } else {
            "b"
        }
    } else if v == 12 {
        if upper {
            "C"
        } else {
            "c"
        }
    } else if v == 13 {
        if upper {
            "D"
        } else {
            "d"
        }
    } else if v == 14 {
        if upper {
            "E"
        } else {
            "e"
        }
    } else {
        if upper {
            "F"
        } else {
            "f"
        }
    };
    proof {
        if upper {
            assert(r@ =~= seq![spec_hex_char_upper(v)]);
        } else {
            assert(r@ =~= seq![spec_hex_char(v)]);
        }
    }
    r
}

/// Renders bytes as hex, in the requested case.
pub fn hex_encode(bytes: &[u8], upper: bool) -> (r: String)
    requires
        2 * bytes@.len() <= usize::MAX,
    ensures
        !upper ==> r@ == spec_hex_encode(bytes@),
        upper ==> r@ == spec_hex_encode_upper(bytes@),
{
    let n: usize = bytes.len();
    let mut out = String::new();
    let mut i: usize = 0;
    while i < n
        invariant
            0 <= i <= n,
            n == bytes@.len(),
            2 * n <= usize::MAX,
            !upper ==> out@ == spec_hex_encode(bytes@).take(2 * i),
            upper ==> out@ == spec_hex_encode_upper(bytes@).take(2 * i),
        decreases n - i,
    {
        let b: u8 = bytes[i];
        proof {
            assert(b >> 4u8 < 16 && b & 15u8 < 16) by (bit_vector);
        }
        out.append(hex_char_of(b >> 4u8, upper));
        out.append(hex_char_of(b & 15u8, upper));
        proof {
            if upper {
                assert(out@ =~= spec_hex_encode_upper(bytes@).take(2 * (i + 1)));
            } else {
                assert(out@ =~= spec_hex_encode(bytes@).take(2 * (i + 1)));
            }
        }
        i += 1;
    }
    proof {
        if upper {
            assert(out@ =~= spec_hex_encode_upper(bytes@));
        } else {
            assert(out@ =~= spec_hex_encode(bytes@));
        }
    }
    out
}

fn hex_val(c: char) -> (r: Option<u8>)
    ensures
        r == spec_hex_val(c),
{
    if c == '0' {
        Some(0u8)
    } else if c == '1' {
        Some(1u8)
    } else if c == '2' {
        Some(2u8)
    } else if c == '3' {
        Some(3u8)
    } else if c == '4' {
        Some(4u8)
    } else if c == '5' {
        Some(5u8)
    } else if c == '6' {
        Some(6u8)
    } else if c == '7' {
        Some(7u8)
    } else if c == '8' {
        Some(8u8)
    } else if c == '9' {
        Some(9u8)
    } else if c == 'a' || c == 'A' {
        Some(10u8)
    } else if c == 'b' || c == 'B' {
        Some(11u8)
    } else if c == 'c' || c == 'C' {
        Some(12u8)
    } else if c == 'd' || c == 'D' {
        Some(13u8)
    } else if c == 'e' || c == 'E' {
        Some(14u8)
    } else if c == 'f' || c == 'F' {
        Some(15u8)
    } else {
        None
    }
}

/// Parses a hex string into bytes.
///
/// Succeeds exactly on even-length strings made of hex digits of either case.
pub fn hex_decode(s: &str) -> (r: Result<Vec<u8>, Error>)
    ensures
        r is Ok <==> spec_hex_ok(s@),
        r matches Ok(v) ==> v@ == spec_hex_decode(s@),
        r matches Err(e) ==> e is FailedToParse,
{
    let n: usize = s.unicode_len();
    if n % 2 != 0 {
        return Err(Error::FailedToParse(String::from_str("hex input has odd length")));
    }
    let mut out: Vec<u8> = Vec::new();
    let mut j: usize = 0;
    while j < n / 2
        invariant
            0 <= j <= n / 2,
            n == s@.len(),
            n % 2 == 0,
            out@.len() == j,
            forall|k: int| 0 <= k < 2 * j ==> (#[trigger] spec_hex_val(s@[k])) is Some,
            forall|k: int|
                0 <= k < j ==> out@[k] == (16 * spec_hex_val(s@[2 * k])->Some_0 + spec_hex_val(
                    s@[2 * k + 1],
                )->Some_0) as u8,
        decreases n / 2 - j,
    {
        let hi = match hex_val(s.get_char(2 * j)) {
            Some(v) => v,
            None => {
                return Err(Error::FailedToParse(String::from_str("invalid hex character")));
            },
        };
        let lo = match hex_val(s.get_char(2 * j + 1)) {
            Some(v) => v,
            None => {
                return Err(Error::FailedToParse(String::from_str("invalid hex character")));
            },
        };
        out.push(16 * hi + lo);
        j += 1;
    }
    proof {
        assert forall|i: int| 0 <= i < n implies (#[trigger] spec_hex_val(s@[i])) is Some by {
            if i % 2 == 0 {
                assert(spec_hex_val(s@[2 * (i / 2)]) is Some);
            } else {
                assert(spec_hex_val(s@[2 * (i / 2) + 1]) is Some);
            }
        }
        assert(out@ =~= spec_hex_decode(s@));
    }
    Ok(out)
}

} // verus!
