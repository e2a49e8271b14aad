//! Text handling that rests on outside code: hexadecimal decoding through
//! the `hex` crate, and trimming, lowercasing and substring search through
//! std.

use vstd::prelude::*;

verus! {

/// Value of a hexadecimal digit (either case), or -1 for any other byte.
pub open spec fn hex_val(c: u8) -> int {
    if 48 <= c <= 57 {
        c - 48
    } else if 97 <= c <= 102 {
        c - 97 + 10
    } else if 65 <= c <= 70 {
        c - 65 + 10
    } else {
        -1
    }
}

/// Whether `text` is an even number of hexadecimal digits.
pub open spec fn is_hex_text(text: Seq<u8>) -> bool {
    &&& text.len() % 2 == 0
    &&& forall|i: int| 0 <= i < text.len() ==> hex_val(#[trigger] text[i]) >= 0
}

/// The bytes that hexadecimal `text` denotes: one per pair of digits, high
/// digit first.
pub open spec fn hex_bytes(text: Seq<u8>) -> Seq<u8> {
    Seq::new(text.len() / 2, |i: int| (16 * hex_val(text[2 * i]) + hex_val(text[2 * i + 1])) as u8)
}

/// The UTF-8 bytes of `s` with leading and trailing Unicode whitespace
/// removed.
pub uninterp spec fn trimmed_utf8(s: Seq<char>) -> Seq<u8>;

/// Relies on `str::trim` (then `as_bytes`): the trimmed text depends on the
/// characters alone.
#[verifier::external_body]
pub(crate) fn trimmed_bytes(s: &str) -> (r: Vec<u8>)
    ensures
        r@ == trimmed_utf8(s@),
{
    s.trim().as_bytes().to_vec()
}

/// Relies on `hex::decode`: it accepts exactly an even number of hex digits
/// of either case and yields one byte per pair, high digit first.
#[verifier::external_body]
pub(crate) fn decode_hex(text: &[u8]) -> (r: Option<Vec<u8>>)
    ensures
        r is Some == is_hex_text(text@),
        r matches Some(v) ==> v@ == hex_bytes(text@),
{
    hex::decode(text).ok()
}

} // verus!

verus! {

/// The Unicode lowercase mapping of `s`.
pub uninterp spec fn lower_of(s: Seq<char>) -> Seq<char>;

/// Relies on `str::to_lowercase`: the result depends on the characters
/// alone.
#[verifier::external_body]
pub(crate) fn lowercase(s: &str) -> (r: String)
    ensures
        r@ == lower_of(s@),
{
    s.to_lowercase()
}

/// Whether `needle` occurs in `hay` as a contiguous run.
pub open spec fn is_infix(needle: Seq<char>, hay: Seq<char>) -> bool {
    exists|i: int|
        0 <= i && i + needle.len() <= hay.len() && #[trigger] hay.subrange(i, i + needle.len()) == needle
}

/// Relies on `str::contains` with a string pattern: true exactly when the
/// pattern occurs in the text.
#[verifier::external_body]
pub(crate) fn contains_text(hay: &str, needle: &str) -> (r: bool)
    ensures
        r == is_infix(needle@, hay@),
{
    hay.contains(needle)
}

} // verus!
