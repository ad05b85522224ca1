use vstd::prelude::*;

verus! {

/// The lower-case hexadecimal digit of `n` (below 16).
pub open spec fn hex_digit(n: int) -> char {
    if n < 10 {
        (48 + n) as char
    } else {
        (87 + n) as char
    }
}

/// Whether position `i` of a hyphenated UUID holds a hyphen.
pub open spec fn hyphen_at(i: int) -> bool {
    i == 8 || i == 13 || i == 18 || i == 23
}

/// The number of hyphens before position `i` of a hyphenated UUID.
pub open spec fn hyphens_before(i: int) -> int {
    if i > 23 { 4 } else if i > 18 { 3 } else if i > 13 { 2 } else if i > 8 { 1 } else { 0 }
}

/// The hyphenated text of the UUID whose big-endian 128-bit value is
/// `value`: its 32 nibbles, most significant first, as lower-case hex
/// digits in groups of 8, 4, 4, 4 and 12 joined by hyphens.
pub open spec fn uuid_text(value: u128) -> Seq<char> {
    Seq::new(36, |i: int| if hyphen_at(i) {
        '-'
    } else {
        hex_digit(((value >> ((124 - 4 * (i - hyphens_before(i))) as u128)) & 0xfu128) as int)
    })
}

/// A fresh version-7 UUID from `uuid::Uuid::now_v7`, as its 128-bit value.
///
/// The value depends on the clock and on randomness, so nothing is promised
/// of it but what every version-7 UUID carries: the version nibble (bits 76
/// to 79 of the big-endian value) is 7.
#[verifier::external_body]
pub(crate) fn fresh_uuid_v7() -> (r: u128)
    ensures
        (r >> 76u128) & 0xfu128 == 7u128,
{
    uuid::Uuid::now_v7().as_u128()
}

/// The hyphenated text of a UUID, from `uuid::Uuid::from_u128` and its
/// `Display` (`to_string`).
///
/// The crate writes the 32 lower-case hex digits of the value, most
/// significant first, in groups of 8, 4, 4, 4 and 12 joined by hyphens:
/// 36 characters, with hyphens exactly at positions 8, 13, 18 and 23.
#[verifier::external_body]
pub(crate) fn uuid_to_text(value: u128) -> (r: String)
    ensures
        r@ == uuid_text(value),
        r@.len() == 36,
        forall|i: int|
            0 <= i < 36 ==> ((r@[i] == '-') <==> (i == 8 || i == 13 || i == 18 || i == 23)),
{
    uuid::Uuid::from_u128(value).to_string()
}

/// A version-7 UUID value is never the nil UUID.
pub proof fn lemma_v7_not_nil(v: u128)
    requires
        (v >> 76u128) & 0xfu128 == 7u128,
    ensures
        v != 0,
{
    assert(((v >> 76u128) & 0xfu128 == 7u128) ==> v != 0u128) by (bit_vector);
}

} // verus!
