//! A second front over the SHA-1 core: a hasher whose digest is wrapped
//! in [`ShaOutput`], which can render itself as a lowercase hex string.
use vstd::prelude::*;

use crate::sha1::{sha1_digest_bytes, spec_sha1};
pub use crate::sha1::__rotate_left_u32;
use crate::utils::{ascii_chars, string_from_ascii_bytes};

verus! {

/// The ASCII code of the lowercase hex digit for a value below sixteen.
pub open spec fn hex_digit(v: u8) -> u8
    recommends
        v < 16,
{
    if v < 10 {
        (v + 0x30) as u8
    } else {
        (v + 0x57) as u8
    }
}

/// The lowercase hex rendering of a byte sequence, two characters per byte.
pub open spec fn hex_chars(s: Seq<u8>) -> Seq<char> {
    Seq::new(
        2 * s.len(),
        |i: int|
            (if i % 2 == 0 {
                hex_digit(s[i / 2] >> 4)
            } else {
                hex_digit(s[i / 2] & 0x0F)
            }) as char,
    )
}

/// The two four-bit halves of a byte are below sixteen.
proof fn lemma_nibbles_bounded(b: u8)
    by (bit_vector)
    ensures
        b >> 4 < 16,
        b & 0x0F < 16,
{
}

/// The ASCII code of the lowercase hex digit for a value below sixteen.
fn hex_digit_of(v: u8) -> (r: u8)
    requires
        v < 16,
    ensures
        r == hex_digit(v),
        r < 0x80,
{
    if v < 10 {
        v + 0x30
    } else {
        v + 0x57
    }
}

/// A 160-bit digest.
pub struct ShaOutput {
    state: [u8; 20],
}

impl View for ShaOutput {
    type V = Seq<u8>;

    closed spec fn view(&self) -> Seq<u8> {
        self.state@
    }
}

impl Default for ShaOutput {
    /// The all-zero digest value.
    fn default() -> (r: Self)
        ensures
            r@ == Seq::new(20, |i: int| 0u8),
    {
        ShaOutput::new()
    }
}

impl ShaOutput {
    /// The all-zero digest value.
    pub fn new() -> (r: Self)
        ensures
            r@ == Seq::new(20, |i: int| 0u8),
    {
        let r = ShaOutput { state: [0; 20] };
        proof {
            assert(r.state@ =~= Seq::new(20, |i: int| 0u8));
        }
        r
    }

    /// A digest holding the given twenty bytes.
    pub fn from(state: [u8; 20]) -> (r: Self)
        ensures
            r@ == state@,
    {
        ShaOutput { state }
    }

    /// The digest as forty lowercase hex characters.
    pub fn to_hexstring(&self) -> (r: String)
        ensures
            r@ == hex_chars(self@),
    {
        let mut out: Vec<u8> = Vec::new();
        let mut j: usize = 0;
        while j < 20
            invariant
                j <= 20,
                out@.len() == 2 * j,
                forall|i: int| 0 <= i < out@.len() ==> out@[i] < 0x80,
                forall|i: int|
                    0 <= i < 2 * j ==> out@[i] == (if i % 2 == 0 {
                        hex_digit(self@[i / 2] >> 4)
                    } else {
                        hex_digit(self@[i / 2] & 0x0F)
                    }),
            decreases 20 - j,
        {
            let b = self.state[j];
            proof {
                lemma_nibbles_bounded(b);
            }
            out.push(hex_digit_of(b >> 4));
            out.push(hex_digit_of(b & 0x0F));
            j += 1;
        }
        let r = string_from_ascii_bytes(out);
        proof {
            assert(r@ =~= hex_chars(self@));
        }
        r
    }
}

/// A one-shot SHA-1 hasher over owned message bytes.
pub struct Sha1 {
    data: Vec<u8>,
}

impl View for Sha1 {
    type V = Seq<u8>;

    closed spec fn view(&self) -> Seq<u8> {
        self.data@
    }
}

impl Default for Sha1 {
    /// An empty hasher.
    fn default() -> (s: Self)
        ensures
            s@ == Seq::<u8>::empty(),
    {
        Sha1 { data: Vec::new() }
    }
}

impl Sha1 {
    /// An empty hasher.
    pub fn new() -> (s: Self)
        ensures
            s@ == Seq::<u8>::empty(),
    {
        Sha1 { data: Vec::new() }
    }

    /// A hasher over the given message bytes.
    pub fn from(data: &[u8]) -> (s: Self)
        ensures
            s@ == data@,
    {
        Sha1 { data: vstd::slice::slice_to_vec(data) }
    }

    /// The digest of the message.
    pub fn digest(&self) -> (r: ShaOutput)
        ensures
            r@ == spec_sha1(self@),
    {
        ShaOutput::from(sha1_digest_bytes(&self.data))
    }
}

} // verus!
