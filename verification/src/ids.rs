//! Object identifiers. Every document object, layer, graph node and link is
//! named by a 128-bit UUID, held here as its integer value.

use vstd::prelude::*;

verus! {

/// Identifier of a document object (the 128-bit value of a UUID).
pub type NodeId = u128;

/// Lower-case hexadecimal digit for a value below 16.
pub open spec fn hex_char(d: nat) -> char {
    if d < 10 {
        ((d + 48) as u8) as char
    } else {
        ((d - 10 + 97) as u8) as char
    }
}

/// The last `n` hexadecimal digits of `v`, most significant first.
pub open spec fn hex_digits(v: nat, n: nat) -> Seq<char>
    decreases n,
{
    if n == 0 {
        Seq::empty()
    } else {
        hex_digits(v / 16, (n - 1) as nat).push(hex_char(v % 16))
    }
}

/// The hyphenated lower-case text of a UUID: 32 hex digits in groups of
/// 8-4-4-4-12 separated by `-`.
pub open spec fn uuid_text(id: u128) -> Seq<char> {
    let h = hex_digits(id as nat, 32);
    h.subrange(0, 8) + seq!['-'] + h.subrange(8, 12) + seq!['-'] + h.subrange(12, 16) + seq!['-']
        + h.subrange(16, 20) + seq!['-'] + h.subrange(20, 32)
}

/// A fresh random (version 4) identifier, from `uuid::Uuid::new_v4`.
/// Nothing is promised of its value: it comes from the system's random source.
#[verifier::external_body]
pub(crate) fn fresh_id() -> (id: u128) {
    uuid::Uuid::new_v4().as_u128()
}

/// The hyphenated text of an identifier, from the `Display` impl of
/// `uuid::Uuid` (`Uuid::from_u128(id).to_string()`), which the uuid crate
/// documents as the lower-case hyphenated form.
#[verifier::external_body]
pub(crate) fn uuid_to_string(id: u128) -> (s: String)
    ensures
        s@ == uuid_text(id),
{
    uuid::Uuid::from_u128(id).to_string()
}

} // verus!
