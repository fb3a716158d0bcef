//! Hexadecimal text for byte identifiers: an exact specification of
//! lower-case encoding, an encoder delegated to the `hex` crate, and a
//! verified decoder used for the fixed contract addresses.

use vstd::prelude::*;
use vstd::string::StrSliceExecFns;

verus! {

/// Lower-case hex digit for a nibble value.
pub open spec fn hex_digit(n: u8) -> char
    recommends
        n < 16,
{
    seq!['0', '1', '2', '3', '4', '5', '6', '7', '8', '9', 'a', 'b', 'c', 'd', 'e', 'f'][n as int]
}

/// Lower-case hex text of a byte sequence, high nibble of each byte first.
pub open spec fn hex_of(bytes: Seq<u8>) -> Seq<char>
    decreases bytes.len(),
{
    if bytes.len() == 0 {
        Seq::<char>::empty()
    } else {
        seq![hex_digit(bytes.first() / 16), hex_digit(bytes.first() % 16)] + hex_of(
            bytes.drop_first(),
        )
    }
}

/// Relies on `hex::encode`: lower-case hex, two digits per byte, high
/// nibble first.
#[verifier::external_body]
pub(crate) fn hex_encode(bytes: &Vec<u8>) -> (r: String)
    ensures
        r@ == hex_of(bytes@),
{
    hex::encode(bytes)
}

/// Whether `c` is an ASCII hex digit, either case.
pub open spec fn is_hex_digit(c: char) -> bool {
    (('0' as u32) <= (c as u32) && (c as u32) <= ('9' as u32)) || (('a' as u32) <= (c as u32) && (c
        as u32) <= ('f' as u32)) || (('A' as u32) <= (c as u32) && (c as u32) <= ('F' as u32))
}

/// Numeric value of a hex digit, either case.
pub open spec fn hex_val(c: char) -> u8
    recommends
        is_hex_digit(c),
{
    if ('0' as u32) <= (c as u32) && (c as u32) <= ('9' as u32) {
        ((c as u32) - ('0' as u32)) as u8
    } else if ('a' as u32) <= (c as u32) && (c as u32) <= ('f' as u32) {
        ((c as u32) - ('a' as u32) + 10) as u8
    } else {
        ((c as u32) - ('A' as u32) + 10) as u8
    }
}

/// Nibble value of one character, `None` when it is not a hex digit.
fn nibble_of(c: char) -> (r: Option<u8>)
    ensures
        r is Some <==> is_hex_digit(c),
        r matches Some(v) ==> v == hex_val(c) && v < 16,
{
    let u: u32 = c as u32;
    if 48 <= u && u <= 57 {
        Some((u - 48) as u8)
    } else if 97 <= u && u <= 102 {
        Some((u - 97 + 10) as u8)
    } else if 65 <= u && u <= 70 {
        Some((u - 65 + 10) as u8)
    } else {
        None
    }
}

/// Whether `s` is a well-formed hex string: even length, hex digits only.
pub open spec fn is_hex_string(s: Seq<char>) -> bool {
    s.len() % 2 == 0 && forall|i: int| 0 <= i < s.len() ==> is_hex_digit(#[trigger] s[i])
}

/// The bytes a well-formed hex string denotes, one byte per digit pair.
pub open spec fn hex_bytes(s: Seq<char>) -> Seq<u8> {
    Seq::new((s.len() / 2) as nat, |i: int| (16 * hex_val(s[2 * i]) + hex_val(s[2 * i + 1])) as u8)
}

/// Decodes hex text into bytes; `None` unless `s` is a well-formed hex
/// string.
pub fn hex_decode(s: &str) -> (r: Option<Vec<u8>>)
    ensures
        r is Some <==> is_hex_string(s@),
        r matches Some(bytes) ==> bytes@ == hex_bytes(s@),
{
    let n: usize = s.unicode_len();
    if n % 2 != 0 {
        return None;
    }
    let mut out: Vec<u8> = Vec::new();
    let mut i: usize = 0;
    while i < n
        invariant
            n == s@.len(),
            n % 2 == 0,
            i % 2 == 0,
            0 <= i <= n,
            forall|j: int| 0 <= j < i ==> is_hex_digit(#[trigger] s@[j]),
            out@.len() == i / 2,
            forall|k: int|
                0 <= k < out@.len() ==> out@[k] == (16 * hex_val(s@[2 * k]) + hex_val(
                    s@[2 * k + 1],
                )) as u8,
        decreases n - i,
    {
        let hi: Option<u8> = nibble_of(s.get_char(i));
        let lo: Option<u8> = nibble_of(s.get_char(i + 1));
        match (hi, lo) {
            (Some(h), Some(l)) => {
                out.push(16 * h + l);
            },
            _ => {
                return None;
            },
        }
        i = i + 2;
    }
    assert(out@ =~= hex_bytes(s@));
    Some(out)
}

} // verus!
