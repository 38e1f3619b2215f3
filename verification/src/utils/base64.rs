//! Standard Base64 encoding (alphabet `A-Z a-z 0-9 + /`, `=` padding).
//!
//! Three input bytes become four six-bit symbols; a trailing byte emits
//! two symbols and `==`, two trailing bytes emit three symbols and `=`.
use vstd::prelude::*;

use crate::utils::{ascii_chars, string_from_ascii_bytes};

verus! {

/// The ASCII code of the alphabet symbol for a six-bit value.
pub open spec fn b64_byte(v: u8) -> u8
    recommends
        v < 64,
{
    if v < 26 {
        (v + 65) as u8  // A-Z
    } else if v < 52 {
        (v + 71) as u8  // a-z
    } else if v < 62 {
        (v - 4) as u8  // 0-9
    } else if v == 62 {
        43u8  // +
    } else {
        47u8  // /
    }
}

/// The Base64 encoding of a byte sequence, as ASCII codes.
pub open spec fn spec_base64(data: Seq<u8>) -> Seq<u8>
    decreases data.len(),
{
    if data.len() == 0 {
        Seq::empty()
    } else if data.len() == 1 {
        seq![
            b64_byte(data[0] >> 2),
            b64_byte((data[0] & 0x03) << 4),
            61u8,
            61u8,
        ]
    } else if data.len() == 2 {
        seq![
            b64_byte(data[0] >> 2),
            b64_byte(((data[0] & 0x03) << 4) | (data[1] >> 4)),
            b64_byte((data[1] & 0x0F) << 2),
            61u8,
        ]
    } else {
        seq![
            b64_byte(data[0] >> 2),
            b64_byte(((data[0] & 0x03) << 4) | (data[1] >> 4)),
            b64_byte(((data[1] & 0x0F) << 2) | (data[2] >> 6)),
            b64_byte(data[2] & 0x3F),
        ] + spec_base64(data.skip(3))
    }
}

/// The Base64 encoding of a byte sequence, as characters.
pub open spec fn spec_base64_chars(data: Seq<u8>) -> Seq<char> {
    ascii_chars(spec_base64(data))
}

/// An ASCII code belonging to the Base64 alphabet or the `=` pad.
pub open spec fn is_base64_symbol(b: u8) -> bool {
    (65 <= b <= 90) || (97 <= b <= 122) || (48 <= b <= 57) || b == 43 || b == 47 || b == 61
}

/// Every six-bit group drawn from a chunk of bytes is below 64.
proof fn lemma_six_bit_groups(a: u8, b: u8, c: u8)
    by (bit_vector)
    ensures
        a >> 2 < 64,
        (a & 0x03) << 4 < 64,
        ((a & 0x03) << 4) | (b >> 4) < 64,
        (b & 0x0F) << 2 < 64,
        ((b & 0x0F) << 2) | (c >> 6) < 64,
        c & 0x3F < 64,
{
}

/// The length of an encoding is four symbols per started triple, and
/// every output byte is an alphabet symbol or the pad.
pub proof fn lemma_base64_shape(data: Seq<u8>)
    ensures
        spec_base64(data).len() == 4 * ((data.len() + 2) / 3),
        forall|i: int|
            0 <= i < spec_base64(data).len() ==> is_base64_symbol(#[trigger] spec_base64(data)[i]),
    decreases data.len(),
{
    if data.len() == 0 {
    } else if data.len() <= 2 {
        lemma_six_bit_groups(data[0], if data.len() == 2 {
            data[1]
        } else {
            0
        }, 0);
    } else {
        lemma_six_bit_groups(data[0], data[1], data[2]);
        lemma_base64_shape(data.skip(3));
        vstd::arithmetic::div_mod::lemma_div_plus_one((data.len() - 3 + 2) as int, 3);
    }
}

/// A Base64 encoder.
pub struct Base64;

impl Base64 {
    /// The alphabet symbol for a six-bit value.
    fn __base64_symbol(&self, v: u8) -> (r: u8)
        requires
            v < 64,
        ensures
            r == b64_byte(v),
            r < 0x80,
    {
        if v < 26 {
            v + 65
        } else if v < 52 {
            v + 71
        } else if v < 62 {
            v - 4
        } else if v == 62 {
            43
        } else {
            47
        }
    }

    /// The six-bit groups of a chunk of one, two or three bytes.
    fn __split(&self, chunk: &Vec<u8>) -> (r: Vec<u8>)
        requires
            1 <= chunk@.len() <= 3,
        ensures
            chunk@.len() == 1 ==> r@ =~= seq![chunk@[0] >> 2, (chunk@[0] & 0x03) << 4],
            chunk@.len() == 2 ==> r@ =~= seq![
                chunk@[0] >> 2,
                ((chunk@[0] & 0x03) << 4) | (chunk@[1] >> 4),
                (chunk@[1] & 0x0F) << 2,
            ],
            chunk@.len() == 3 ==> r@ =~= seq![
                chunk@[0] >> 2,
                ((chunk@[0] & 0x03) << 4) | (chunk@[1] >> 4),
                ((chunk@[1] & 0x0F) << 2) | (chunk@[2] >> 6),
                chunk@[2] & 0x3F,
            ],
            forall|i: int| 0 <= i < r@.len() ==> r@[i] < 64,
    {
        proof {
            lemma_six_bit_groups(chunk@[0], if chunk@.len() >= 2 {
                chunk@[1]
            } else {
                0
            }, if chunk@.len() >= 3 {
                chunk@[2]
            } else {
                0
            });
        }
        if chunk.len() == 1 {
            vec![chunk[0] >> 2, (chunk[0] & 0x03) << 4]
        } else if chunk.len() == 2 {
            vec![
                chunk[0] >> 2,
                ((chunk[0] & 0x03) << 4) | (chunk[1] >> 4),
                (chunk[1] & 0x0F) << 2,
            ]
        } else {
            vec![
                chunk[0] >> 2,
                ((chunk[0] & 0x03) << 4) | (chunk[1] >> 4),
                ((chunk[1] & 0x0F) << 2) | (chunk[2] >> 6),
                chunk[2] & 0x3F,
            ]
        }
    }

    /// Four output symbols for the six-bit groups of one chunk, padded
    /// with `=` where the chunk was short.
    fn __encode_chunk(&self, chunk: Vec<u8>) -> (r: Vec<u8>)
        requires
            2 <= chunk@.len() <= 4,
            forall|i: int| 0 <= i < chunk@.len() ==> chunk@[i] < 64,
        ensures
            r@.len() == 4,
            forall|i: int|
                0 <= i < 4 ==> r@[i] == (if i < chunk@.len() {
                    b64_byte(chunk@[i])
                } else {
                    61u8
                }),
            forall|i: int| 0 <= i < 4 ==> r@[i] < 0x80,
    {
        let mut out: Vec<u8> = vec![61, 61, 61, 61];
        let mut idx: usize = 0;
        while idx < chunk.len()
            invariant
                idx <= chunk@.len() <= 4,
                out@.len() == 4,
                forall|i: int| 0 <= i < chunk@.len() ==> chunk@[i] < 64,
                forall|i: int|
                    0 <= i < 4 ==> out@[i] == (if i < idx {
                        b64_byte(chunk@[i])
                    } else {
                        61u8
                    }),
            decreases chunk@.len() - idx,
        {
            out[idx] = self.__base64_symbol(chunk[idx]);
            idx += 1;
        }
        out
    }

    /// Encode a byte sequence as Base64.
    pub fn encode(&self, data: &[u8]) -> (r: String)
        ensures
            r@ == spec_base64_chars(data@),
    {
        let n = data.len();
        let mut out: Vec<u8> = Vec::new();
        let mut i: usize = 0;
        proof {
            assert(data@.skip(0) =~= data@);
            assert(Seq::<u8>::empty() + spec_base64(data@) =~= spec_base64(data@));
        }
        while n - i >= 3
            invariant
                i <= n,
                n == data@.len(),
                spec_base64(data@) == out@ + spec_base64(data@.skip(i as int)),
                forall|j: int| 0 <= j < out@.len() ==> out@[j] < 0x80,
            decreases n - i,
        {
            let mut chunk: Vec<u8> = Vec::new();
            chunk.push(data[i]);
            chunk.push(data[i + 1]);
            chunk.push(data[i + 2]);
            let groups = self.__split(&chunk);
            let mut symbols = self.__encode_chunk(groups);
            proof {
                let rest = data@.skip(i as int);
                assert(rest[0] == data@[i as int]);
                assert(rest[1] == data@[i as int + 1]);
                assert(rest[2] == data@[i as int + 2]);
                assert(symbols@ =~= spec_base64(rest).take(4));
                assert(rest.skip(3) =~= data@.skip(i as int + 3));
                assert(spec_base64(rest) =~= symbols@ + spec_base64(data@.skip(i as int + 3)));
                assert(spec_base64(data@) =~= (out@ + symbols@) + spec_base64(
                    data@.skip(i as int + 3),
                ));
            }
            out.append(&mut symbols);
            i += 3;
        }
        if n - i == 1 {
            let mut chunk: Vec<u8> = Vec::new();
            chunk.push(data[i]);
            let groups = self.__split(&chunk);
            let mut symbols = self.__encode_chunk(groups);
            proof {
                let rest = data@.skip(i as int);
                assert(rest.len() == 1);
                assert(rest[0] == data@[i as int]);
                assert(symbols@ =~= spec_base64(rest));
            }
            out.append(&mut symbols);
        } else if n - i == 2 {
            let mut chunk: Vec<u8> = Vec::new();
            chunk.push(data[i]);
            chunk.push(data[i + 1]);
            let groups = self.__split(&chunk);
            let mut symbols = self.__encode_chunk(groups);
            proof {
                let rest = data@.skip(i as int);
                assert(rest.len() == 2);
                assert(rest[0] == data@[i as int]);
                assert(rest[1] == data@[i as int + 1]);
                assert(symbols@ =~= spec_base64(rest));
            }
            out.append(&mut symbols);
        } else {
            proof {
                assert(data@.skip(i as int).len() == 0);
                assert(spec_base64(data@.skip(i as int)) =~= Seq::<u8>::empty());
            }
        }
        proof {
            assert(out@ =~= spec_base64(data@));
        }
        let r = string_from_ascii_bytes(out);
        proof {
            assert(r@ =~= spec_base64_chars(data@));
        }
        r
    }
}

} // verus!
