//! Hexadecimal decoding of puzzle seeds.
//!
//! A puzzle's seed arrives as a hex string; the seed bytes key the cached
//! hashing context. Decoding is done by the `hex` crate behind a trusted
//! wrapper whose contract states exactly when decoding succeeds and what
//! the decoded bytes are.

use vstd::prelude::*;

verus! {

/// Error returned when a seed string is not well-formed hexadecimal:
/// either its byte length is odd or it holds a non-hex-digit byte.
#[derive(Debug, Clone, Copy, PartialEq, Eq, Structural)]
pub struct HexError;

/// A byte is a hex digit: `0-9`, `a-f` or `A-F`.
pub open spec fn is_hex_digit(b: u8) -> bool {
    (48 <= b && b <= 57) || (97 <= b && b <= 102) || (65 <= b && b <= 70)
}

/// Numeric value of a hex-digit byte.
pub open spec fn hex_val(b: u8) -> nat {
    if 48 <= b && b <= 57 {
        (b - 48) as nat
    } else if 97 <= b && b <= 102 {
        (b - 87) as nat
    } else {
        (b - 55) as nat
    }
}

/// A byte string is valid hexadecimal: even length, every byte a hex digit.
pub open spec fn hex_ok(s: Seq<u8>) -> bool {
    &&& s.len() % 2 == 0
    &&& forall|i: int| 0 <= i < s.len() ==> is_hex_digit(#[trigger] s[i])
}

/// The bytes a valid hex string decodes to: one byte per digit pair,
/// high nibble first.
pub open spec fn hex_bytes(s: Seq<u8>) -> Seq<u8> {
    Seq::new(s.len() / 2, |i: int| (16 * hex_val(s[2 * i]) + hex_val(s[2 * i + 1])) as u8)
}

/// Relies on `hex::decode`: it succeeds exactly on even-length byte
/// strings of hex digits and pairs the digits high nibble first.
#[verifier::external_body]
pub(crate) fn hex_decode(s: &[u8]) -> (r: Result<Vec<u8>, HexError>)
    ensures
        (r is Ok) == hex_ok(s@),
        r matches Ok(v) ==> v@ == hex_bytes(s@),
{
    match hex::decode(s) {
        Ok(v) => Ok(v),
        Err(_) => Err(HexError),
    }
}

} // verus!
