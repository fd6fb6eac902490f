//! Hexadecimal text.

use hex::FromHexError;
use vstd::prelude::*;
use vstd::string::StringSliceAdditionalSpecFns;

verus! {

/// The value of one hexadecimal digit, in either case.
pub open spec fn hex_digit(b: u8) -> Option<u8> {
    if 0x30 <= b <= 0x39 {
        Some((b - 0x30) as u8)
    } else if 0x41 <= b <= 0x46 {
        Some((b - 0x41 + 10) as u8)
    } else if 0x61 <= b <= 0x66 {
        Some((b - 0x61 + 10) as u8)
    } else {
        None
    }
}

/// Whether a text is an even number of hexadecimal digits and nothing else.
pub open spec fn is_hex(text: Seq<u8>) -> bool {
    &&& text.len() % 2 == 0
    &&& forall|i: int| 0 <= i < text.len() ==> hex_digit(#[trigger] text[i]) is Some
}

/// The bytes that a hexadecimal text spells, two digits to the byte, the
/// high one first.
pub open spec fn hex_bytes(text: Seq<u8>) -> Seq<u8> {
    Seq::new(
        text.len() / 2,
        |i: int| (16 * hex_digit(text[2 * i]).unwrap() + hex_digit(text[2 * i + 1]).unwrap()) as u8,
    )
}

#[verifier::external_type_specification]
#[verifier::external_body]
pub struct ExFromHexError(FromHexError);

/// `hex::decode`. It fails on a text of odd length and on one that holds
/// anything but hexadecimal digits; otherwise it gives one byte for each two
/// digits.
#[verifier::external_body]
fn hex_decode(text: &str) -> (r: Result<Vec<u8>, FromHexError>)
    ensures
        r is Ok <==> is_hex(text.spec_bytes()),
        r matches Ok(bytes) ==> bytes@ == hex_bytes(text.spec_bytes()),
{
    hex::decode(text)
}

/// The bytes that a hexadecimal text spells, `None` if it is not one.
pub fn decode_hex(text: &str) -> (r: Option<Vec<u8>>)
    ensures
        r is Some <==> is_hex(text.spec_bytes()),
        r matches Some(bytes) ==> bytes@ == hex_bytes(text.spec_bytes()),
{
    match hex_decode(text) {
        Ok(bytes) => Some(bytes),
        Err(_) => None,
    }
}

} // verus!
