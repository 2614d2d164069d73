//! Request identifiers: 128-bit values that are minted at random and written
//! in the hyphenated form of a UUID.

use vstd::prelude::*;

verus! {

/// Whether `id` carries the marks of a random (version 4) UUID: version
/// nibble 4 and the two variant bits `10`.
pub open spec fn is_random_uuid(id: u128) -> bool {
    (id >> 76u128) & 0xfu128 == 4 && (id >> 62u128) & 0x3u128 == 2
}

/// Tests whether `id` carries the marks of a random UUID.
pub fn is_random_id(id: u128) -> (marked: bool)
    ensures
        marked == is_random_uuid(id),
{
    (id >> 76u128) & 0xfu128 == 4 && (id >> 62u128) & 0x3u128 == 2
}

/// The lower-case hexadecimal digit for `nibble`.
pub open spec fn hex_char(nibble: u128) -> char {
    if nibble == 0 {
        '0'
    } else if nibble == 1 {
        '1'
    } else if nibble == 2 {
        '2'
    } else if nibble == 3 {
        '3'
    } else if nibble == 4 {
        '4'
    } else if nibble == 5 {
        '5'
    } else if nibble == 6 {
        '6'
    } else if nibble == 7 {
        '7'
    } else if nibble == 8 {
        '8'
    } else if nibble == 9 {
        '9'
    } else if nibble == 10 {
        'a'
    } else if nibble == 11 {
        'b'
    } else if nibble == 12 {
        'c'
    } else if nibble == 13 {
        'd'
    } else if nibble == 14 {
        'e'
    } else {
        'f'
    }
}

/// The `k`-th hexadecimal digit of `id`, counted from the most significant.
pub open spec fn hex_digit_at(id: u128, k: int) -> char
    recommends
        0 <= k < 32,
{
    hex_char((id >> ((4 * (31 - k)) as u128)) & 0xfu128)
}

/// The character at position `i` of the hyphenated form: 32 hexadecimal
/// digits in groups of 8, 4, 4, 4 and 12, with a hyphen between groups.
pub open spec fn hyphenated_char(id: u128, i: int) -> char
    recommends
        0 <= i < 36,
{
    if i == 8 || i == 13 || i == 18 || i == 23 {
        '-'
    } else if i < 8 {
        hex_digit_at(id, i)
    } else if i < 13 {
        hex_digit_at(id, i - 1)
    } else if i < 18 {
        hex_digit_at(id, i - 2)
    } else if i < 23 {
        hex_digit_at(id, i - 3)
    } else {
        hex_digit_at(id, i - 4)
    }
}

/// The hyphenated, lower-case text of `id`, 36 characters long.
pub open spec fn hyphenated_text(id: u128) -> Seq<char> {
    Seq::new(36, |i: int| hyphenated_char(id, i))
}

/// Mints an identifier with `uuid::Uuid::new_v4`. Which identifier comes
/// back is left to chance; the crate fixes only the version and variant
/// bits, and that is all the contract claims. The call does not return if
/// the system cannot supply random bytes.
#[verifier::external_body]
pub(crate) fn fresh_request_id() -> (id: u128)
    ensures
        is_random_uuid(id),
{
    uuid::Uuid::new_v4().as_u128()
}

/// Draws 64 random bits with `rand::random`. Nothing is promised of the
/// value. The call does not return if the system cannot seed the
/// generator.
#[verifier::external_body]
pub(crate) fn random_u64() -> u64 {
    rand::random::<u64>()
}

/// Writes `id` the way `uuid::Uuid` displays it: hyphenated, lower case.
#[verifier::external_body]
pub(crate) fn request_id_text(id: u128) -> (text: String)
    ensures
        text@ == hyphenated_text(id),
{
    uuid::Uuid::from_u128(id).to_string()
}

} // verus!
