//! Lowercase hexadecimal rendering of targeting keys for emission.

use vstd::prelude::*;

verus! {

/// The lowercase hexadecimal digit for a value below 16.
pub open spec fn hex_digit(n: u8) -> char
    recommends
        n < 16,
{
    if n < 10 {
        ((48 + n) as u8) as char
    } else {
        ((87 + n) as u8) as char
    }
}

/// The lowercase hexadecimal rendering of a byte sequence: two digits per
/// byte, high nibble first.
pub open spec fn hex_of(b: Seq<u8>) -> Seq<char> {
    Seq::new(
        b.len() * 2,
        |i: int|
            if i % 2 == 0 {
                hex_digit(b[i / 2] / 16)
            } else {
                hex_digit(b[i / 2] % 16)
            },
    )
}

/// Relies on `faster_hex::hex_string`: two lowercase hexadecimal digits
/// for each input byte, high nibble first, in input order.
#[verifier::external_body]
pub(crate) fn hex_string(b: &Vec<u8>) -> (r: String)
    requires
        b@.len() < 0x1000000,
    ensures
        r@ == hex_of(b@),
{
    faster_hex::hex_string(b.as_slice())
}

} // verus!
