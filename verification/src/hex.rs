//! Hexadecimal text for byte strings: lower case on the way out, either
//! case on the way in.

use vstd::prelude::*;

verus! {

/// The lower-case hexadecimal digit for a value below 16.
pub open spec fn hex_digit(nibble: int) -> u8 {
    if nibble < 10 {
        (48 + nibble) as u8
    } else {
        (87 + nibble) as u8
    }
}

/// Two lower-case hexadecimal digits for each byte, high half first.
pub open spec fn to_hex(bytes: Seq<u8>) -> Seq<u8> {
    Seq::new(
        2 * bytes.len(),
        |i: int|
            if i % 2 == 0 {
                hex_digit(bytes[i / 2] as int / 16)
            } else {
                hex_digit(bytes[i / 2] as int % 16)
            },
    )
}

/// The value of a hexadecimal digit of either case.
pub open spec fn hex_value(c: u8) -> Option<u8> {
    if 48 <= c <= 57 {
        Some((c - 48) as u8)
    } else if 97 <= c <= 102 {
        Some((c - 87) as u8)
    } else if 65 <= c <= 70 {
        Some((c - 55) as u8)
    } else {
        None
    }
}

/// An even number of hexadecimal digits.
pub open spec fn is_hex(s: Seq<u8>) -> bool {
    &&& s.len() % 2 == 0
    &&& forall|i: int| 0 <= i < s.len() ==> (#[trigger] hex_value(s[i])) is Some
}

/// The bytes that pairs of hexadecimal digits stand for.
pub open spec fn from_hex(s: Seq<u8>) -> Seq<u8> {
    Seq::new(
        s.len() / 2,
        |i: int| (hex_value(s[2 * i])->0 * 16 + hex_value(s[2 * i + 1])->0) as u8,
    )
}

/// Decoding the hexadecimal text of any bytes gives the bytes back.
pub proof fn lemma_hex_round_trip(bytes: Seq<u8>)
    ensures
        is_hex(to_hex(bytes)),
        from_hex(to_hex(bytes)) == bytes,
{
    let h = to_hex(bytes);
    assert forall|i: int| 0 <= i < h.len() implies (#[trigger] hex_value(h[i])) is Some by {
        let b = bytes[i / 2] as int;
        assert(0 <= b / 16 < 16 && 0 <= b % 16 < 16);
    }
    assert forall|i: int| 0 <= i < bytes.len() implies from_hex(h)[i] == bytes[i] by {
        let b = bytes[i] as int;
        assert(0 <= b / 16 < 16 && 0 <= b % 16 < 16);
        assert((2 * i) % 2 == 0 && (2 * i) / 2 == i);
        assert((2 * i + 1) % 2 == 1 && (2 * i + 1) / 2 == i);
        assert(hex_value(hex_digit(b / 16)) == Some((b / 16) as u8));
        assert(hex_value(hex_digit(b % 16)) == Some((b % 16) as u8));
        assert((b / 16) * 16 + b % 16 == b);
    }
    assert(from_hex(h) =~= bytes);
}

fn digit_of(nibble: u8) -> (c: u8)
    requires
        nibble < 16,
    ensures
        c == hex_digit(nibble as int),
        c < 128,
{
    if nibble < 10 {
        48 + nibble
    } else {
        87 + nibble
    }
}

fn value_of(c: u8) -> (v: Option<u8>)
    ensures
        v == hex_value(c),
        v matches Some(n) ==> n < 16,
{
    if 48 <= c && c <= 57 {
        Some(c - 48)
    } else if 97 <= c && c <= 102 {
        Some(c - 87)
    } else if 65 <= c && c <= 70 {
        Some(c - 55)
    } else {
        None
    }
}

/// The lower-case hexadecimal text of `bytes`.
pub fn hex_encode(bytes: &[u8]) -> (out: Vec<u8>)
    ensures
        out@ == to_hex(bytes@),
        forall|i: int| 0 <= i < out@.len() ==> #[trigger] out@[i] < 128,
{
    let mut out: Vec<u8> = Vec::new();
    let mut i: usize = 0;
    while i < bytes.len()
        invariant
            i <= bytes.len(),
            out@.len() == 2 * i,
            forall|j: int| 0 <= j < out@.len() ==> #[trigger] out@[j] == to_hex(bytes@)[j],
            forall|j: int| 0 <= j < out@.len() ==> #[trigger] out@[j] < 128,
        decreases bytes.len() - i,
    {
        let b = bytes[i];
        proof {
            assert((2 * i) % 2 == 0 && (2 * i) / 2 == i);
            assert((2 * i + 1) % 2 == 1 && (2 * i + 1) / 2 == i);
        }
        out.push(digit_of(b / 16));
        out.push(digit_of(b % 16));
        i += 1;
    }
    assert(out@ =~= to_hex(bytes@));
    out
}

/// The bytes written in `s`, when `s` is an even number of hexadecimal
/// digits.
pub fn hex_decode(s: &[u8]) -> (out: Option<Vec<u8>>)
    ensures
        out is Some <==> is_hex(s@),
        out matches Some(v) ==> v@ == from_hex(s@),
{
    if s.len() % 2 != 0 {
        return None;
    }
    let mut out: Vec<u8> = Vec::new();
    let mut i: usize = 0;
    while i < s.len()
        invariant
            i <= s.len(),
            i % 2 == 0,
            s.len() % 2 == 0,
            out@.len() == i / 2,
            forall|j: int| 0 <= j < i ==> (#[trigger] hex_value(s@[j])) is Some,
            forall|j: int| 0 <= j < out@.len() ==> #[trigger] out@[j] == from_hex(s@)[j],
        decreases s.len() - i,
    {
        let hi = value_of(s[i]);
        let lo = value_of(s[i + 1]);
        match (hi, lo) {
            (Some(h), Some(l)) => {
                out.push(h * 16 + l);
            },
            _ => {
                return None;
            },
        }
        i += 2;
    }
    assert(out@ =~= from_hex(s@));
    Some(out)
}

} // verus!
