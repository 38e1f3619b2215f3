//! Small shared utilities: ASCII string building.
pub mod base64;
pub mod sha1;

use vstd::prelude::*;

verus! {

/// The characters of a sequence of ASCII bytes, one character per byte.
pub open spec fn ascii_chars(s: Seq<u8>) -> Seq<char> {
    Seq::new(s.len(), |i: int| s[i] as char)
}

/// Relies on String::from_utf8: a vector of bytes below 0x80 is valid
/// UTF-8 and decodes to exactly those characters.
#[verifier::external_body]
pub(crate) fn string_from_ascii_bytes(v: Vec<u8>) -> (r: String)
    requires
        forall|i: int| 0 <= i < v@.len() ==> v@[i] < 0x80,
    ensures
        r@ == ascii_chars(v@),
{
    match String::from_utf8(v) {
        Ok(s) => s,
        Err(_) => String::new(),
    }
}

} // verus!
