//! Element, constraint and sketch ids: the 128-bit values of UUIDs, made
//! and read through the `uuid` crate.

use vstd::prelude::*;

verus! {

/// The bits `uuid` fixes in every random (version 4) id: the version
/// nibble is 4 and the variant's top bits are `10`.
pub open spec fn is_random_id(id: u128) -> bool {
    id & 0x0000_0000_0000_f000_c000_0000_0000_0000u128 == 0x0000_0000_0000_4000_8000_0000_0000_0000u128
}

/// A fresh id, from `uuid::Uuid::new_v4`. Its other bits are chance: the
/// contract says only what `new_v4` masks into every one it makes.
#[verifier::external_body]
pub(crate) fn new_id() -> (id: u128)
    ensures
        is_random_id(id),
{
    uuid::Uuid::new_v4().as_u128()
}


/// The lower-case hexadecimal digit for `d` (below sixteen).
pub open spec fn hex_char(d: int) -> char {
    if d < 10 {
        crate::text::digit_char(d as nat)
    } else if d == 10 { 'a' } else if d == 11 { 'b' } else if d == 12 { 'c' }
    else if d == 13 { 'd' } else if d == 14 { 'e' } else { 'f' }
}

/// `16` to the `k`.
pub open spec fn pow16(k: nat) -> int
    decreases k,
{
    if k == 0 { 1 } else { 16 * pow16((k - 1) as nat) }
}

/// The `k`-th hexadecimal digit of `id`, counted from the most
/// significant of its 32.
pub open spec fn hex_digit_of(id: u128, k: int) -> int {
    (id as int / pow16((31 - k) as nat)) % 16
}

/// Which of the 32 digits stands at position `i` of the hyphenated form.
pub open spec fn digit_at(i: int) -> int {
    if i < 8 { i } else if i < 13 { i - 1 } else if i < 18 { i - 2 } else if i < 23 { i - 3 } else { i - 4 }
}

/// The hyphenated text of an id, as `uuid` displays it: 32 lower-case
/// hexadecimal digits grouped 8-4-4-4-12, like
/// `67e55044-10b1-426f-9247-bb680e5fe0c8`.
pub open spec fn hyphenated(id: u128) -> Seq<char> {
    Seq::new(
        36,
        |i: int|
            if i == 8 || i == 13 || i == 18 || i == 23 {
                '-'
            } else {
                hex_char(hex_digit_of(id, digit_at(i)))
            },
    )
}

/// An id as text: `uuid::Uuid`'s `to_string`, its hyphenated lower-case
/// form.
#[verifier::external_body]
pub(crate) fn id_text(id: u128) -> (s: String)
    ensures
        s@ == hyphenated(id),
{
    uuid::Uuid::from_u128(id).to_string()
}

/// What `uuid::Uuid::parse_str` reads in `text`: its value, or `None`
/// where it refuses the text.
pub uninterp spec fn parsed_id(text: Seq<char>) -> Option<u128>;

/// An id read from text by `uuid::Uuid::parse_str`, which takes the
/// hyphenated, simple, braced and URN forms.
#[verifier::external_body]
pub(crate) fn parse_id(text: &str) -> (r: Option<u128>)
    ensures
        r == parsed_id(text@),
{
    match uuid::Uuid::parse_str(text) {
        Ok(id) => Some(id.as_u128()),
        Err(_) => None,
    }
}

} // verus!
