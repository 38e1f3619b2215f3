//! SHA-1 one-shot digest over a byte sequence, following FIPS 180-4.
//!
//! The specification functions below state the algorithm mathematically:
//! the 80-word message schedule, the four round functions and constants,
//! the compression of one 512-bit block, and the padding rule. The
//! executable code is proved to compute exactly that function.
use vstd::prelude::*;

verus! {

/// Initial hash state words.
pub const H0: u32 = 0x67452301;

pub const H1: u32 = 0xEFCDAB89;

pub const H2: u32 = 0x98BADCFE;

pub const H3: u32 = 0x10325476;

pub const H4: u32 = 0xC3D2E1F0;

/// Round key constants.
pub const K0: u32 = 0x5A827999;

pub const K1: u32 = 0x6ED9EBA1;

pub const K2: u32 = 0x8F1BBCDC;

pub const K3: u32 = 0xCA62C1D6;

/// Left rotation of a 32-bit word.
pub open spec fn rotl32(x: u32, n: u32) -> u32
    recommends
        0 < n < 32,
{
    (x << n) | (x >> ((32 - n) as u32))
}

/// 32-bit addition modulo 2^32.
pub open spec fn wadd(x: u32, y: u32) -> u32 {
    vstd::wrapping::u32_specs::wrapping_add(x, y)
}

/// Round function: choice, parity, majority, parity.
pub open spec fn sha1_f(t: int, b: u32, c: u32, d: u32) -> u32 {
    if t < 20 {
        (b & c) | ((!b) & d)
    } else if t < 40 {
        b ^ c ^ d
    } else if t < 60 {
        (b & c) | (b & d) | (c & d)
    } else {
        b ^ c ^ d
    }
}

/// Round constant for round `t`.
pub open spec fn sha1_k(t: int) -> u32 {
    if t < 20 {
        K0
    } else if t < 40 {
        K1
    } else if t < 60 {
        K2
    } else {
        K3
    }
}

/// Word `i` of a 64-byte block, assembled big-endian.
pub open spec fn block_word(block: Seq<u8>, i: int) -> u32
    recommends
        block.len() == 64,
        0 <= i < 16,
{
    ((block[4 * i] as u32) << 24u32) | ((block[4 * i + 1] as u32) << 16u32) | ((block[4 * i
        + 2] as u32) << 8u32) | (block[4 * i + 3] as u32)
}

/// The 80-word message schedule of a block.
pub open spec fn sched(block: Seq<u8>, t: int) -> u32
    recommends
        block.len() == 64,
        0 <= t < 80,
    decreases t,
{
    if t < 16 {
        block_word(block, t)
    } else {
        rotl32(sched(block, t - 3) ^ sched(block, t - 8) ^ sched(block, t - 14) ^ sched(block, t - 16), 1)
    }
}

/// One round update of the five working words.
pub open spec fn round_step(block: Seq<u8>, st: (u32, u32, u32, u32, u32), t: int) -> (u32, u32, u32, u32, u32) {
    let (a, b, c, d, e) = st;
    (
        wadd(wadd(wadd(wadd(rotl32(a, 5), sha1_f(t, b, c, d)), e), sha1_k(t)), sched(block, t)),
        a,
        rotl32(b, 30),
        c,
        d,
    )
}

/// The working words after applying rounds `t .. 80` to `st`.
pub open spec fn spec_rounds(block: Seq<u8>, st: (u32, u32, u32, u32, u32), t: int) -> (u32, u32, u32, u32, u32)
    decreases 80 - t,
{
    if t < 0 || t >= 80 {
        st
    } else {
        spec_rounds(block, round_step(block, st, t), t + 1)
    }
}

/// Compression of one 512-bit block into the running state.
pub open spec fn spec_compress(h: (u32, u32, u32, u32, u32), block: Seq<u8>) -> (u32, u32, u32, u32, u32)
    recommends
        block.len() == 64,
{
    let (a, b, c, d, e) = spec_rounds(block, h, 0);
    let (h0, h1, h2, h3, h4) = h;
    (wadd(h0, a), wadd(h1, b), wadd(h2, c), wadd(h3, d), wadd(h4, e))
}

/// Number of zero bytes inserted after the 0x80 marker so that the
/// padded message length is 56 modulo 64.
pub open spec fn pad_zeros(len: nat) -> nat {
    let rem = (len + 1) % 64;
    if rem <= 56 {
        (56 - rem) as nat
    } else {
        (120 - rem) as nat
    }
}

/// A 64-bit value as eight big-endian bytes.
pub open spec fn be64_bytes(x: u64) -> Seq<u8> {
    seq![
        (x >> 56u32) as u8,
        (x >> 48u32) as u8,
        (x >> 40u32) as u8,
        (x >> 32u32) as u8,
        (x >> 24u32) as u8,
        (x >> 16u32) as u8,
        (x >> 8u32) as u8,
        x as u8,
    ]
}

/// FIPS 180-4 padding: a 0x80 marker, zeros to 56 mod 64, then the
/// message bit length as a big-endian 64-bit integer.
pub open spec fn sha1_pad(msg: Seq<u8>) -> Seq<u8> {
    msg + seq![0x80u8] + Seq::new(pad_zeros(msg.len()), |i: int| 0u8) + be64_bytes(
        vstd::wrapping::u64_specs::wrapping_mul(msg.len() as u64, 8),
    )
}

/// The running state after compressing every whole block of `padded`
/// from offset `i` on.
pub open spec fn process_from(h: (u32, u32, u32, u32, u32), padded: Seq<u8>, i: int) -> (u32, u32, u32, u32, u32)
    decreases padded.len() - i,
{
    if 0 <= i && i + 64 <= padded.len() {
        process_from(spec_compress(h, padded.subrange(i, i + 64)), padded, i + 64)
    } else {
        h
    }
}

/// A 32-bit word as four big-endian bytes.
pub open spec fn word_bytes(x: u32) -> Seq<u8> {
    seq![(x >> 24u32) as u8, (x >> 16u32) as u8, (x >> 8u32) as u8, x as u8]
}

/// The SHA-1 digest of a byte sequence: twenty bytes.
pub open spec fn spec_sha1(msg: Seq<u8>) -> Seq<u8> {
    let h = process_from((H0, H1, H2, H3, H4), sha1_pad(msg), 0);
    word_bytes(h.0) + word_bytes(h.1) + word_bytes(h.2) + word_bytes(h.3) + word_bytes(h.4)
}

/// The digest is always twenty bytes long.
pub proof fn lemma_spec_sha1_len(msg: Seq<u8>)
    ensures
        spec_sha1(msg).len() == 20,
{
}

/// Rotate a 32-bit word left by `bits`.
pub fn __rotate_left_u32(value: u32, bits: usize) -> (r: u32)
    requires
        0 < bits < 32,
    ensures
        r == rotl32(value, bits as u32),
{
    let b = bits as u32;
    (value << b) | (value >> (32 - b))
}

/// Pad a message per FIPS 180-4; the result's length is a multiple of 64.
fn pad_message(data: &Vec<u8>) -> (padded: Vec<u8>)
    ensures
        padded@ == sha1_pad(data@),
        padded@.len() % 64 == 0,
{
    let len = data.len();
    let mut padded: Vec<u8> = Vec::new();
    padded.extend_from_slice(data.as_slice());
    padded.push(0x80);

    let rem = padded.len() % 64;
    let zeros = if rem <= 56 {
        56 - rem
    } else {
        120 - rem
    };
    assert(zeros == pad_zeros(data@.len()));

    let mut j: usize = 0;
    while j < zeros
        invariant
            j <= zeros,
            padded@ == data@ + seq![0x80u8] + Seq::new(j as nat, |i: int| 0u8),
        decreases zeros - j,
    {
        padded.push(0);
        proof {
            assert(padded@ =~= data@ + seq![0x80u8] + Seq::new((j + 1) as nat, |i: int| 0u8));
        }
        j += 1;
    }

    let bits: u64 = (len as u64).wrapping_mul(8);
    padded.push((bits >> 56) as u8);
    padded.push((bits >> 48) as u8);
    padded.push((bits >> 40) as u8);
    padded.push((bits >> 32) as u8);
    padded.push((bits >> 24) as u8);
    padded.push((bits >> 16) as u8);
    padded.push((bits >> 8) as u8);
    padded.push(bits as u8);

    proof {
        assert(padded@ =~= sha1_pad(data@));
        let q = ((len + 1) as int) / 64;
        vstd::arithmetic::div_mod::lemma_fundamental_div_mod((len + 1) as int, 64);
        if rem <= 56 {
            assert(padded@.len() == 64 * q + 64);
            vstd::arithmetic::div_mod::lemma_fundamental_div_mod_converse_mod(
                padded@.len() as int,
                64,
                q + 1,
                0,
            );
        } else {
            assert(padded@.len() == 64 * q + 128);
            vstd::arithmetic::div_mod::lemma_fundamental_div_mod_converse_mod(
                padded@.len() as int,
                64,
                q + 2,
                0,
            );
        }
    }
    padded
}

/// Compress the 64-byte block of `padded` starting at `start` into `h`.
fn compress_block(h: (u32, u32, u32, u32, u32), padded: &Vec<u8>, start: usize) -> (r: (u32, u32, u32, u32, u32))
    requires
        start + 64 <= padded@.len(),
    ensures
        r == spec_compress(h, padded@.subrange(start as int, start as int + 64)),
{
    let ghost block = padded@.subrange(start as int, start as int + 64);
    let plen = padded.len();
    let mut words: [u32; 80] = [0; 80];

    let mut t: usize = 0;
    while t < 16
        invariant
            t <= 16,
            start + 64 <= plen,
            plen == padded@.len(),
            block == padded@.subrange(start as int, start as int + 64),
            forall|j: int| 0 <= j < t ==> words@[j] == sched(block, j),
        decreases 16 - t,
    {
        let off = start + 4 * t;
        let w: u32 = ((padded[off] as u32) << 24u32) | ((padded[off + 1] as u32) << 16u32) | ((
        padded[off + 2] as u32) << 8u32) | (padded[off + 3] as u32);
        proof {
            assert(block[4 * t as int] == padded@[start as int + 4 * t]);
            assert(block[4 * t as int + 1] == padded@[start as int + 4 * t + 1]);
            assert(block[4 * t as int + 2] == padded@[start as int + 4 * t + 2]);
            assert(block[4 * t as int + 3] == padded@[start as int + 4 * t + 3]);
            assert(w == block_word(block, t as int));
        }
        words[t] = w;
        t += 1;
    }

    while t < 80
        invariant
            16 <= t <= 80,
            block.len() == 64,
            forall|j: int| 0 <= j < t ==> words@[j] == sched(block, j),
        decreases 80 - t,
    {
        let x = words[t - 3] ^ words[t - 8] ^ words[t - 14] ^ words[t - 16];
        let w = __rotate_left_u32(x, 1);
        proof {
            assert(sched(block, t as int) == rotl32(
                sched(block, t as int - 3) ^ sched(block, t as int - 8) ^ sched(block, t as int - 14)
                    ^ sched(block, t as int - 16),
                1,
            ));
            assert(w == sched(block, t as int));
        }
        words[t] = w;
        t += 1;
    }

    let (mut a, mut b, mut c, mut d, mut e) = h;
    let mut t: usize = 0;
    while t < 80
        invariant
            t <= 80,
            block.len() == 64,
            forall|j: int| 0 <= j < 80 ==> words@[j] == sched(block, j),
            spec_rounds(block, (a, b, c, d, e), t as int) == spec_rounds(block, h, 0),
        decreases 80 - t,
    {
        let f: u32;
        let k: u32;
        if t < 20 {
            f = (b & c) | ((!b) & d);
            k = K0;
        } else if t < 40 {
            f = b ^ c ^ d;
            k = K1;
        } else if t < 60 {
            f = (b & c) | (b & d) | (c & d);
            k = K2;
        } else {
            f = b ^ c ^ d;
            k = K3;
        }
        let temp = __rotate_left_u32(a, 5).wrapping_add(f).wrapping_add(e).wrapping_add(k)
            .wrapping_add(words[t]);
        proof {
            assert(spec_rounds(block, (a, b, c, d, e), t as int) == spec_rounds(
                block,
                round_step(block, (a, b, c, d, e), t as int),
                t as int + 1,
            ));
        }
        e = d;
        d = c;
        c = __rotate_left_u32(b, 30);
        b = a;
        a = temp;
        t += 1;
    }

    (h.0.wrapping_add(a), h.1.wrapping_add(b), h.2.wrapping_add(c), h.3.wrapping_add(d), h.4
        .wrapping_add(e))
}

/// The SHA-1 digest of `data` as twenty bytes.
pub(crate) fn sha1_digest_bytes(data: &Vec<u8>) -> (r: [u8; 20])
    ensures
        r@ == spec_sha1(data@),
{
    let padded = pad_message(data);
    let plen = padded.len();
    let mut h = (H0, H1, H2, H3, H4);
    let mut i: usize = 0;
    let ghost mut k: int = 0;
    while plen - i >= 64
        invariant
            i == 64 * k,
            0 <= k,
            i <= plen,
            plen == padded@.len(),
            padded@.len() % 64 == 0,
            padded@ == sha1_pad(data@),
            process_from(h, padded@, i as int) == process_from((H0, H1, H2, H3, H4), padded@, 0),
        decreases padded@.len() - i,
    {
        h = compress_block(h, &padded, i);
        i += 64;
        proof {
            k = k + 1;
        }
    }
    proof {
        let len = padded@.len() as int;
        vstd::arithmetic::div_mod::lemma_fundamental_div_mod(len, 64);
        let m = len / 64;
        assert(len == 64 * m);
        assert(64 * k <= 64 * m < 64 * k + 64);
        assert(k == m);
        assert(i == len);
        assert(process_from(h, padded@, i as int) == h);
    }
    let (a, b, c, d, e) = h;
    let r: [u8; 20] = [
        (a >> 24) as u8,
        (a >> 16) as u8,
        (a >> 8) as u8,
        a as u8,
        (b >> 24) as u8,
        (b >> 16) as u8,
        (b >> 8) as u8,
        b as u8,
        (c >> 24) as u8,
        (c >> 16) as u8,
        (c >> 8) as u8,
        c as u8,
        (d >> 24) as u8,
        (d >> 16) as u8,
        (d >> 8) as u8,
        d as u8,
        (e >> 24) as u8,
        (e >> 16) as u8,
        (e >> 8) as u8,
        e as u8,
    ];
    proof {
        assert(r@ =~= spec_sha1(data@));
    }
    r
}

/// A one-shot SHA-1 hasher: it owns the message bytes handed to it and
/// produces the digest on demand.
pub struct Sha1 {
    data: Vec<u8>,
}

impl View for Sha1 {
    type V = Seq<u8>;

    closed spec fn view(&self) -> Seq<u8> {
        self.data@
    }
}

impl Default for Sha1 {
    /// An empty hasher.
    fn default() -> (s: Self)
        ensures
            s@ == Seq::<u8>::empty(),
    {
        Sha1 { data: Vec::new() }
    }
}

impl Sha1 {
    /// An empty hasher.
    pub fn new() -> (s: Self)
        ensures
            s@ == Seq::<u8>::empty(),
    {
        Sha1 { data: Vec::new() }
    }

    /// A hasher over the given message bytes.
    pub fn from(data: &[u8]) -> (s: Self)
        ensures
            s@ == data@,
    {
        Sha1 { data: vstd::slice::slice_to_vec(data) }
    }

    /// The 160-bit digest of the message.
    pub fn digest(&self) -> (r: [u8; 20])
        ensures
            r@ == spec_sha1(self@),
    {
        sha1_digest_bytes(&self.data)
    }
}

} // verus!
