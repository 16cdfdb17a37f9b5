//! The legacy Shift_JIS text encoding used for names and passwords, through
//! the encoding_rs crate.

use vstd::prelude::*;

verus! {

/// The Shift_JIS bytes that encoding_rs produces for a string, with
/// unmappable characters written as HTML numeric character references.
pub uninterp spec fn sjis_encoded(s: Seq<char>) -> Seq<u8>;

/// The string that encoding_rs decodes from Shift_JIS bytes, with malformed
/// sequences turned into U+FFFD.
pub uninterp spec fn sjis_decoded(b: Seq<u8>) -> Seq<char>;

/// True when every character of `s` is ASCII.
pub open spec fn is_ascii_chars(s: Seq<char>) -> bool {
    forall|i: int| 0 <= i < s.len() ==> (s[i] as u32) < 128
}

/// The bytes of an ASCII string, one per character.
pub open spec fn ascii_bytes(s: Seq<char>) -> Seq<u8> {
    Seq::new(s.len(), |i: int| s[i] as u8)
}

/// Relies on `encoding_rs::SHIFT_JIS.encode`: the result is a function of the
/// text; ASCII-only text comes back as its own bytes, and every character
/// yields at least one byte (its mapping, or a numeric character reference),
/// so non-empty text never encodes to nothing.
#[verifier::external_body]
pub(crate) fn encode_legacy(s: &str) -> (r: Vec<u8>)
    ensures
        r@ == sjis_encoded(s@),
        s@.len() > 0 ==> r@.len() > 0,
        is_ascii_chars(s@) ==> r@ == ascii_bytes(s@),
{
    encoding_rs::SHIFT_JIS.encode(s).0.into_owned()
}

/// Relies on `encoding_rs::SHIFT_JIS.decode_without_bom_handling`: the result
/// is a function of the bytes.
#[verifier::external_body]
pub(crate) fn decode_legacy(b: &[u8]) -> (r: String)
    ensures
        r@ == sjis_decoded(b@),
{
    encoding_rs::SHIFT_JIS.decode_without_bom_handling(b).0.into_owned()
}

} // verus!
