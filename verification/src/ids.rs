//! Identifiers of panes, sessions, connections and groups: 128-bit UUID
//! values, generated and parsed by the `uuid` crate.

use vstd::prelude::*;

verus! {

/// The marks of a random (version 4) UUID: the version nibble reads 4 and
/// the variant bits read `10`.
pub open spec fn version4_marks(id: u128) -> bool {
    &&& (id >> 76u128) & 0xFu128 == 4
    &&& (id >> 62u128) & 0x3u128 == 2
}

/// Draws a fresh random identifier with `uuid::Uuid::new_v4`. The value is
/// random; what holds of every outcome is that the version nibble reads 4 and
/// the variant bits read `10`, which `new_v4` sets by masking.
#[verifier::external_body]
pub(crate) fn new_id() -> (id: u128)
    ensures
        (id >> 76u128) & 0xFu128 == 4,
        (id >> 62u128) & 0x3u128 == 2,
{
    uuid::Uuid::new_v4().as_u128()
}

/// What `uuid::Uuid::parse_str` gives for a text: the identifier, or `None`
/// when the text is not a UUID in one of the forms the crate accepts.
pub uninterp spec fn uuid_parse(text: Seq<char>) -> Option<u128>;

/// The lower-case hexadecimal digit for a value below 16.
pub open spec fn hex_char(d: int) -> char {
    if d < 10 {
        (48 + d) as char
    } else {
        (87 + d) as char
    }
}

/// The `j`-th of the 32 hexadecimal digits of `id`, most significant first
/// (the high half of the big-endian bytes comes first).
pub open spec fn hex_nibble(id: u128, j: int) -> int {
    ((id >> ((124 - 4 * j) as u128)) & 0xFu128) as int
}

/// Which of the 32 digits stands at position `i` of the hyphenated form.
pub open spec fn digit_at(i: int) -> int {
    if i < 8 {
        i
    } else if i < 13 {
        i - 1
    } else if i < 18 {
        i - 2
    } else if i < 23 {
        i - 3
    } else {
        i - 4
    }
}

/// The hyphenated lower-case rendering of an identifier, as `uuid::Uuid`'s
/// `Display` writes it: 36 characters, hyphens at positions 8, 13, 18 and
/// 23, and the 32 hexadecimal digits of the value elsewhere, most
/// significant first.
pub open spec fn uuid_text(id: u128) -> Seq<char> {
    Seq::new(
        36,
        |i: int|
            if i == 8 || i == 13 || i == 18 || i == 23 {
                '-'
            } else {
                hex_char(hex_nibble(id, digit_at(i)))
            },
    )
}

/// Parses an identifier with `uuid::Uuid::parse_str`; the result is the one
/// `uuid_parse` names for the text.
#[verifier::external_body]
pub(crate) fn parse_id(text: &str) -> (id: Option<u128>)
    ensures
        id == uuid_parse(text@),
{
    match uuid::Uuid::parse_str(text) {
        Ok(u) => Some(u.as_u128()),
        Err(_) => None,
    }
}

/// Renders an identifier with `uuid::Uuid`'s `Display`: the hyphenated
/// lower-case form `uuid_text` states, which `parse_str` reads back as the
/// same identifier.
#[verifier::external_body]
pub(crate) fn id_text(id: u128) -> (s: String)
    ensures
        s@ == uuid_text(id),
        uuid_parse(s@) == Some(id),
{
    uuid::Uuid::from_u128(id).to_string()
}

} // verus!
