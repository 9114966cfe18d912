//! Lowercase hexadecimal encoding and decoding of byte strings, verified
//! against byte-level specifications.

use vstd::prelude::*;
use crate::strutil;

verus! {

/// The ASCII byte of one hex digit value (lowercase).
pub open spec fn hex_digit_byte(n: u8) -> u8
    recommends
        n < 16,
{
    if n < 10 {
        (48 + n) as u8
    } else {
        (87 + n) as u8
    }
}

/// True when `b` is the ASCII code of a hex digit (either case).
pub open spec fn is_hex_digit(b: u8) -> bool {
    (48 <= b <= 57) || (97 <= b <= 102) || (65 <= b <= 70)
}

/// The value of a hex digit byte.
pub open spec fn hex_val(b: u8) -> u8
    recommends
        is_hex_digit(b),
{
    if 48 <= b <= 57 {
        (b - 48) as u8
    } else if 97 <= b <= 102 {
        (b - 87) as u8
    } else {
        (b - 55) as u8
    }
}

/// The lowercase hex expansion of a byte string: two digit bytes per byte,
/// high nibble first.
pub open spec fn hex_bytes_of(data: Seq<u8>) -> Seq<u8> {
    Seq::new(
        data.len() * 2,
        |i: int| if i % 2 == 0 { hex_digit_byte(data[i / 2] / 16) } else { hex_digit_byte(data[i / 2] % 16) },
    )
}

/// The bytes denoted by a sequence of hex digit bytes of even length.
pub open spec fn hex_decoded(digits: Seq<u8>) -> Seq<u8>
    recommends
        digits.len() % 2 == 0,
{
    Seq::new(digits.len() / 2, |i: int| (hex_val(digits[2 * i]) * 16 + hex_val(digits[2 * i + 1])) as u8)
}

/// Hex digit bytes are ASCII.
pub proof fn lemma_hex_bytes_ascii(data: Seq<u8>)
    ensures
        strutil::all_ascii(hex_bytes_of(data)),
{
    assert forall|i: int| 0 <= i < hex_bytes_of(data).len() implies hex_bytes_of(data)[i] < 128 by {
        assert(data[i / 2] / 16 < 16);
        assert(data[i / 2] % 16 < 16);
    }
}

/// The exec form of `hex_digit_byte`.
pub fn hex_digit(n: u8) -> (b: u8)
    requires
        n < 16,
    ensures
        b == hex_digit_byte(n),
{
    if n < 10 {
        48 + n
    } else {
        87 + n
    }
}

/// The exec form of `hex_val`, with the digit test.
pub fn hex_digit_value(b: u8) -> (r: Option<u8>)
    ensures
        r is Some <==> is_hex_digit(b),
        r is Some ==> r->0 == hex_val(b) && r->0 < 16,
{
    if 48 <= b && b <= 57 {
        Some(b - 48)
    } else if 97 <= b && b <= 102 {
        Some(b - 87)
    } else if 65 <= b && b <= 70 {
        Some(b - 55)
    } else {
        None
    }
}

/// Append the hex expansion of `data` to `out`.
pub fn push_hex_bytes(data: &Vec<u8>, out: &mut Vec<u8>)
    ensures
        final(out)@ == old(out)@ + hex_bytes_of(data@),
{
    let n = data.len();
    let ghost base = out@;
    let mut i: usize = 0;
    while i < n
        invariant
            i <= n,
            n == data@.len(),
            out@.len() == base.len() + 2 * i,
            forall|j: int| 0 <= j < base.len() ==> out@[j] == base[j],
            forall|j: int| 0 <= j < 2 * i ==> out@[base.len() + j] == hex_bytes_of(data@)[j],
        decreases n - i,
    {
        let b = data[i];
        out.push(hex_digit(b / 16));
        out.push(hex_digit(b % 16));
        i = i + 1;
    }
    proof {
        assert(out@ =~= base + hex_bytes_of(data@));
    }
}

/// Encode a byte string as a lowercase hex `String`.
pub fn encode(data: &Vec<u8>) -> (s: String)
    ensures
        s@ == strutil::chars_of_bytes(hex_bytes_of(data@)),
{
    let mut out: Vec<u8> = Vec::new();
    push_hex_bytes(data, &mut out);
    proof {
        lemma_hex_bytes_ascii(data@);
    }
    strutil::ascii_to_string(out)
}

/// Decode a sequence of hex digit bytes. Fails exactly when the length is odd
/// or some byte is not a hex digit.
pub fn decode_digits(digits: &Vec<u8>) -> (r: Option<Vec<u8>>)
    ensures
        r is Some <==> (digits@.len() % 2 == 0 && forall|i: int|
            0 <= i < digits@.len() ==> is_hex_digit(digits@[i])),
        r is Some ==> r->0@ == hex_decoded(digits@),
{
    let n = digits.len();
    if n % 2 != 0 {
        return None;
    }
    let mut out: Vec<u8> = Vec::new();
    let mut i: usize = 0;
    while i < n
        invariant
            i <= n,
            i % 2 == 0,
            n % 2 == 0,
            n == digits@.len(),
            out@.len() == i / 2,
            forall|j: int| 0 <= j < i ==> is_hex_digit(digits@[j]),
            forall|j: int| 0 <= j < i / 2 ==> out@[j] == hex_decoded(digits@)[j],
        decreases n - i,
    {
        let hi = match hex_digit_value(digits[i]) {
            Some(v) => v,
            None => {
                return None;
            },
        };
        let lo = match hex_digit_value(digits[i + 1]) {
            Some(v) => v,
            None => {
                return None;
            },
        };
        out.push(hi * 16 + lo);
        i = i + 2;
    }
    proof {
        assert(out@ =~= hex_decoded(digits@));
    }
    Some(out)
}

} // verus!
