//! Identifiers: random node and template ids, and the textual form of a
//! 128-bit identifier.
use vstd::prelude::*;

verus! {

/// The lowercase hexadecimal digit for a value below 16.
pub open spec fn hex_digit(n: u128) -> char {
    if n < 10 {
        (('0' as u128) + n) as char
    } else {
        (('a' as u128) + (n - 10)) as char
    }
}

/// The position, counted from the most significant end, of the hexadecimal
/// digit written at character `p` of the hyphenated form.
pub open spec fn nibble_at(p: int) -> int {
    if p < 8 {
        p
    } else if p < 13 {
        p - 1
    } else if p < 18 {
        p - 2
    } else if p < 23 {
        p - 3
    } else {
        p - 4
    }
}

/// The hyphenated lowercase form of a 128-bit value, as in
/// `a1a2a3a4-b1b2-c1c2-d1d2-d3d4d5d6d7d8`: 32 hexadecimal digits, most
/// significant first, with hyphens after the 8th, 12th, 16th and 20th digit.
pub open spec fn hyphenated_text(v: u128) -> Seq<char> {
    Seq::new(
        36,
        |p: int|
            if p == 8 || p == 13 || p == 18 || p == 23 {
                '-'
            } else {
                hex_digit((v >> ((4 * (31 - nibble_at(p))) as u128)) & 0xf)
            },
    )
}

/// Calls `uuid::Uuid::from_u128` and formats the identifier with `to_string`,
/// which the `uuid` crate writes in the hyphenated lowercase form; the
/// contract claims exactly that form.
#[verifier::external_body]
pub(crate) fn uuid_text(v: u128) -> (r: String)
    ensures
        r@ == hyphenated_text(v),
{
    uuid::Uuid::from_u128(v).to_string()
}

/// The version nibble of `v` is 4 and its two variant bits are `10`, as
/// in a random identifier.
pub open spec fn random_uuid_bits(v: u128) -> bool {
    &&& (v >> 76u128) & 0xfu128 == 4
    &&& (v >> 62u128) & 0x3u128 == 2
}

/// `s` is the hyphenated form of a 128-bit value with the bits of a random
/// identifier.
pub open spec fn random_id_text(s: Seq<char>) -> bool {
    exists|v: u128| s == hyphenated_text(v) && random_uuid_bits(v)
}

/// Calls `uuid::Uuid::new_v4`, which draws 128 random bits from the operating
/// system, sets the version nibble to 4 and the two variant bits to `10`,
/// and formats the result. The contract claims that the text is the
/// hyphenated form of such a 128-bit value; which value is left open.
#[verifier::external_body]
pub fn generate_id() -> (r: String)
    ensures
        random_id_text(r@),
{
    uuid::Uuid::new_v4().to_string()
}

} // verus!
