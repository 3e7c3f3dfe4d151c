// SPDX-License-Identifier: AGPL-3.0-or-later
//! Note identifiers.

use vstd::prelude::*;

verus! {

/// Identifies a note. The 128 bits of a UUID, most significant byte first.
pub type NoteId = u128;

/// The version and variant bits of `id` are those of a random (version 4)
/// UUID.
pub open spec fn is_random_uuid(id: NoteId) -> bool {
    id & 0x0000_0000_0000_f000_c000_0000_0000_0000u128
        == 0x0000_0000_0000_4000_8000_0000_0000_0000u128
}

/// A fresh identifier from `uuid::Uuid::new_v4`, as the integer that
/// `Uuid::as_u128` gives for it. The value is random; the contract claims
/// only the version and variant bits that `new_v4` sets on every result.
/// The uuid crate panics if the operating system's random source fails.
#[verifier::external_body]
pub(crate) fn fresh_id() -> (id: NoteId)
    ensures
        is_random_uuid(id),
{
    uuid::Uuid::new_v4().as_u128()
}

/// The identifier that a text spells, as `uuid::Uuid::parse_str` reads it;
/// `None` where `parse_str` refuses the text.
pub uninterp spec fn parsed_uuid(text: Seq<char>) -> Option<NoteId>;

/// Sixteen to the power of `n`.
pub open spec fn pow16(n: nat) -> int
    decreases n,
{
    if n == 0 {
        1
    } else {
        16 * pow16((n - 1) as nat)
    }
}

/// The hexadecimal digit of `id` at `place`, as a number: place 0 is the
/// most significant of the 32 digits, place 31 the least.
pub open spec fn uuid_digit(id: NoteId, place: int) -> int {
    (id as int / pow16((31 - place) as nat)) % 16
}

/// The lower-case character for a hexadecimal digit.
pub open spec fn hex_char(digit: int) -> char {
    seq!['0', '1', '2', '3', '4', '5', '6', '7', '8', '9', 'a', 'b', 'c', 'd', 'e', 'f'][digit]
}

/// How many hyphens stand before position `i` of the hyphenated form.
pub open spec fn hyphens_before(i: int) -> int {
    if i < 8 {
        0
    } else if i < 13 {
        1
    } else if i < 18 {
        2
    } else if i < 23 {
        3
    } else {
        4
    }
}

/// The hyphenated form of an identifier in lower case: 36 characters, the
/// 32 hexadecimal digits from the most significant down, in groups of 8, 4,
/// 4, 4 and 12 with a hyphen between two groups.
pub open spec fn uuid_text(id: NoteId) -> Seq<char> {
    Seq::new(
        36,
        |i: int|
            if i == 8 || i == 13 || i == 18 || i == 23 {
                '-'
            } else {
                hex_char(uuid_digit(id, i - hyphens_before(i)))
            },
    )
}

/// Reads an identifier from a text with `uuid::Uuid::parse_str`, which
/// takes the simple, hyphenated, URN and braced forms. The result is
/// named, not spelled out; the error that `parse_str` gives is dropped.
#[verifier::external_body]
pub(crate) fn parse_note_id(text: &str) -> (id: Option<NoteId>)
    ensures
        id == parsed_uuid(text@),
{
    match uuid::Uuid::parse_str(text) {
        Ok(uuid) => Some(uuid.as_u128()),
        Err(_) => None,
    }
}

/// Writes an identifier with the `Display` of `uuid::Uuid`, which gives
/// the hyphenated form in lower case.
#[verifier::external_body]
pub(crate) fn note_id_text(id: NoteId) -> (text: String)
    ensures
        text@ == uuid_text(id),
{
    uuid::Uuid::from_u128(id).to_string()
}

} // verus!
