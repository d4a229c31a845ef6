use vstd::prelude::*;
use crate::json::spec_hex_digit;

verus! {

/// ASCII hex digit, either case.
pub open spec fn spec_is_hex_digit(b: u8) -> bool {
    (0x30 <= b <= 0x39) || (0x41 <= b <= 0x46) || (0x61 <= b <= 0x66)
}

/// Numeric value of a hex digit.
pub open spec fn spec_hex_val(b: u8) -> u8 {
    if 0x30 <= b <= 0x39 {
        (b - 0x30) as u8
    } else if 0x41 <= b <= 0x46 {
        (b - 0x41 + 10) as u8
    } else {
        (b - 0x61 + 10) as u8
    }
}

/// A decodable hex string: even length, hex digits throughout.
pub open spec fn spec_is_hex(s: Seq<u8>) -> bool {
    s.len() % 2 == 0 && forall|i: int| 0 <= i < s.len() ==> spec_is_hex_digit(#[trigger] s[i])
}

/// The bytes a hex string decodes to, one byte per digit pair.
pub open spec fn spec_hex_decode(s: Seq<u8>) -> Seq<u8> {
    Seq::new(s.len() / 2, |i: int| (spec_hex_val(s[2 * i]) * 16 + spec_hex_val(s[2 * i + 1])) as u8)
}

/// The lower-case hex rendering of a byte string, two digits per byte.
pub open spec fn spec_hex_chars(bs: Seq<u8>) -> Seq<char> {
    Seq::new(
        bs.len() * 2,
        |i: int|
            if i % 2 == 0 {
                spec_hex_digit(bs[i / 2] / 16) as char
            } else {
                spec_hex_digit(bs[i / 2] % 16) as char
            },
    )
}

/// Relies on hex::decode: it rejects an odd length or a non-hex byte and
/// otherwise maps each digit pair, upper or lower case, to its byte value.
#[verifier::external_body]
pub fn hex_decode(s: &[u8]) -> (r: Option<Vec<u8>>)
    ensures
        r is Some <==> spec_is_hex(s@),
        r matches Some(v) ==> v@ == spec_hex_decode(s@),
{
    match hex::decode(s) {
        Ok(v) => Some(v),
        Err(_) => None,
    }
}

/// Relies on hex::encode: two lower-case hex digits for each input byte,
/// in input order.
#[verifier::external_body]
pub fn hex_encode(data: &[u8]) -> (r: String)
    ensures
        r@ == spec_hex_chars(data@),
{
    hex::encode(data)
}

} // verus!
