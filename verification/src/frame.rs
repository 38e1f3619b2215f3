//! RFC 6455 frame codec.
//!
//! Wire layout of one frame: a FIN/RSV/opcode byte; a MASK/payload-length
//! byte; an optional 16- or 64-bit big-endian extended length; an optional
//! 32-bit masking key; then the payload, XOR-masked when the key is present.
//!
//! `spec_format_frame` and `spec_parse_frame` state the wire format
//! mathematically; the executable codec is proved equal to them, and the
//! lemmas at the end of this file prove that parsing inverts serialization.
use vstd::prelude::*;

use crate::error::WsError;

verus! {

/// A parsed frame: its header and its (unmasked) payload bytes.
#[derive(Debug, PartialEq)]
pub struct Frame {
    pub header: FrameHeader,
    pub payload: Vec<u8>,
}

/// The mathematical value of a frame: the header and the payload bytes.
#[verifier::ext_equal]
pub ghost struct FrameView {
    pub header: FrameHeader,
    pub payload: Seq<u8>,
}

impl View for Frame {
    type V = FrameView;

    open spec fn view(&self) -> FrameView {
        FrameView { header: self.header, payload: self.payload@ }
    }
}

/// The fixed fields of a frame header.
#[derive(Debug, PartialEq, Clone, Copy)]
pub struct FrameHeader {
    /// Terminal frame of a message.
    pub fin: bool,
    /// Reserved bits; zero unless an extension was negotiated.
    pub rsv1: bool,
    pub rsv2: bool,
    pub rsv3: bool,
    pub opcode: Opcode,
    /// Whether the payload is XOR-masked.
    pub masked: bool,
    /// Payload length in bytes.
    pub payloadlength: u64,
    /// The masking key, present exactly when `masked`.
    pub mask: Option<u32>,
}

/// Frame kind: data, control, or a reserved opcode value.
#[derive(Debug, PartialEq, Clone, Copy)]
pub enum Opcode {
    Data(Data),
    Control(Control),
    Reserved,
}

/// Data frame subtypes.
#[derive(Debug, PartialEq, Clone, Copy)]
pub enum Data {
    Continue,
    Text,
    Binary,
}

/// Control frame subtypes.
#[derive(Debug, PartialEq, Clone, Copy)]
pub enum Control {
    Close,
    Ping,
    Pong,
}

/// The opcode encoded by a nibble; every unassigned value is `Reserved`.
pub open spec fn opcode_of(nibble: u8) -> Opcode {
    if nibble == 0x0 {
        Opcode::Data(Data::Continue)
    } else if nibble == 0x1 {
        Opcode::Data(Data::Text)
    } else if nibble == 0x2 {
        Opcode::Data(Data::Binary)
    } else if nibble == 0x8 {
        Opcode::Control(Control::Close)
    } else if nibble == 0x9 {
        Opcode::Control(Control::Ping)
    } else if nibble == 0xA {
        Opcode::Control(Control::Pong)
    } else {
        Opcode::Reserved
    }
}

/// The nibble an opcode is encoded as; `Reserved` serializes as 0xF.
pub open spec fn opcode_bits(op: Opcode) -> u8 {
    match op {
        Opcode::Data(Data::Continue) => 0x0,
        Opcode::Data(Data::Text) => 0x1,
        Opcode::Data(Data::Binary) => 0x2,
        Opcode::Control(Control::Close) => 0x8,
        Opcode::Control(Control::Ping) => 0x9,
        Opcode::Control(Control::Pong) => 0xA,
        Opcode::Reserved => 0xF,
    }
}

/// Whether an opcode is a control opcode.
pub open spec fn is_control(op: Opcode) -> bool {
    op matches Opcode::Control(_)
}

/// The 7-bit length field: the length itself up to 125, else the
/// 16-bit marker 126, else the 64-bit marker 127.
pub open spec fn len_field(len: u64) -> u8 {
    if len <= 125 {
        len as u8
    } else if len <= 0xFFFF {
        126u8
    } else {
        127u8
    }
}

/// The extended-length bytes: empty, two, or eight, big-endian, for the
/// smallest legal encoding of `len`.
pub open spec fn len_ext_bytes(len: u64) -> Seq<u8> {
    if len <= 125 {
        Seq::empty()
    } else if len <= 0xFFFF {
        seq![(len >> 8u32) as u8, len as u8]
    } else {
        seq![
            (len >> 56u32) as u8,
            (len >> 48u32) as u8,
            (len >> 40u32) as u8,
            (len >> 32u32) as u8,
            (len >> 24u32) as u8,
            (len >> 16u32) as u8,
            (len >> 8u32) as u8,
            len as u8,
        ]
    }
}

/// The four bytes of a masking key, most significant first.
pub open spec fn mask_key_bytes(mask: u32) -> Seq<u8> {
    seq![(mask >> 24u32) as u8, (mask >> 16u32) as u8, (mask >> 8u32) as u8, mask as u8]
}

/// The first header byte: FIN, the reserved bits, and the opcode nibble.
pub open spec fn first_header_byte(h: FrameHeader) -> u8 {
    (if h.fin {
        0x80u8
    } else {
        0u8
    }) | (if h.rsv1 {
        0x40u8
    } else {
        0u8
    }) | (if h.rsv2 {
        0x20u8
    } else {
        0u8
    }) | (if h.rsv3 {
        0x10u8
    } else {
        0u8
    }) | opcode_bits(h.opcode)
}

/// The second header byte: the mask bit and the 7-bit length field.
pub open spec fn second_header_byte(h: FrameHeader) -> u8 {
    (if h.masked {
        0x80u8
    } else {
        0u8
    }) | len_field(h.payloadlength)
}

/// The serialized header: two fixed bytes, the extended length, and the
/// masking key when one is present.
pub open spec fn spec_format_header(h: FrameHeader) -> Seq<u8> {
    seq![first_header_byte(h), second_header_byte(h)] + len_ext_bytes(h.payloadlength) + (
    match h.mask {
        Some(m) => mask_key_bytes(m),
        None => Seq::empty(),
    })
}

/// The payload XOR-masked positionally: byte `i` with key byte `i % 4`.
pub open spec fn spec_apply_mask(payload: Seq<u8>, mask: u32) -> Seq<u8> {
    Seq::new(payload.len(), |i: int| payload[i] ^ mask_key_bytes(mask)[i % 4])
}

/// The serialized frame: the header, then the payload, masked exactly
/// when the header carries a key.
pub open spec fn spec_format_frame(f: FrameView) -> Seq<u8> {
    spec_format_header(f.header) + (match f.header.mask {
        Some(m) => spec_apply_mask(f.payload, m),
        None => f.payload,
    })
}

/// A 16-bit big-endian value read at offset `i`.
pub open spec fn u16_be_at(raw: Seq<u8>, i: int) -> u64 {
    ((raw[i] as u64) << 8u32) | (raw[i + 1] as u64)
}

/// A 64-bit big-endian value read at offset `i`.
pub open spec fn u64_be_at(raw: Seq<u8>, i: int) -> u64 {
    ((raw[i] as u64) << 56u32) | ((raw[i + 1] as u64) << 48u32) | ((raw[i + 2] as u64) << 40u32) | ((
    raw[i + 3] as u64) << 32u32) | ((raw[i + 4] as u64) << 24u32) | ((raw[i + 5] as u64) << 16u32)
        | ((raw[i + 6] as u64) << 8u32) | (raw[i + 7] as u64)
}

/// A 32-bit big-endian value read at offset `i`.
pub open spec fn u32_be_at(raw: Seq<u8>, i: int) -> u32 {
    ((raw[i] as u32) << 24u32) | ((raw[i + 1] as u32) << 16u32) | ((raw[i + 2] as u32) << 8u32) | (
    raw[i + 3] as u32)
}

/// Parse a header from the start of `raw`: the header and the number of
/// bytes it occupied, or `None` when `raw` ends inside the header.
pub open spec fn spec_parse_header(raw: Seq<u8>) -> Option<(FrameHeader, int)> {
    if raw.len() < 2 {
        None
    } else {
        let first = raw[0];
        let second = raw[1];
        let len7 = second & 0x7F;
        let masked = (second & 0x80) != 0;
        let lenres: Option<(u64, int)> = if len7 == 126 {
            if raw.len() < 4 {
                Option::None
            } else {
                Some((u16_be_at(raw, 2), 4))
            }
        } else if len7 == 127 {
            if raw.len() < 10 {
                Option::None
            } else {
                Some((u64_be_at(raw, 2), 10))
            }
        } else {
            Some((len7 as u64, 2))
        };
        match lenres {
            Option::None => None,
            Some((plen, off)) => {
                let mask: Option<u32> = if masked {
                    if raw.len() < off + 4 {
                        Option::None
                    } else {
                        Some(u32_be_at(raw, off))
                    }
                } else {
                    Option::None
                };
                if masked && mask is None {
                    None
                } else {
                    Some(
                        (
                            FrameHeader {
                                fin: (first & 0x80) != 0,
                                rsv1: (first & 0x40) != 0,
                                rsv2: (first & 0x20) != 0,
                                rsv3: (first & 0x10) != 0,
                                opcode: opcode_of(first & 0x0F),
                                masked,
                                payloadlength: plen,
                                mask,
                            },
                            if masked {
                                off + 4
                            } else {
                                off
                            },
                        ),
                    )
                }
            },
        }
    }
}

/// Parse one whole frame from `raw` under the given payload-size bound.
///
/// Fails with `ShortRead` when `raw` ends inside the header or payload,
/// with `OversizedPayload` when the announced length exceeds `max`, and
/// with `ProtocolError` when a control frame is fragmented or its payload
/// is longer than 125 bytes; the header-level checks come first. On
/// success the payload is stored unmasked.
pub open spec fn spec_parse_frame(raw: Seq<u8>, max: u64) -> Result<FrameView, WsError> {
    match spec_parse_header(raw) {
        Option::None => Err(WsError::ShortRead),
        Some((h, off)) => {
            if h.payloadlength > max {
                Err(WsError::OversizedPayload)
            } else if is_control(h.opcode) && (!h.fin || h.payloadlength > 125) {
                Err(WsError::ProtocolError)
            } else if raw.len() < off + h.payloadlength {
                Err(WsError::ShortRead)
            } else {
                let wire_payload = raw.subrange(off, off + h.payloadlength);
                Ok(
                    FrameView {
                        header: h,
                        payload: match h.mask {
                            Some(m) => spec_apply_mask(wire_payload, m),
                            Option::None => wire_payload,
                        },
                    },
                )
            }
        },
    }
}

/// A frame the codec can serialize faithfully: the stored length matches
/// the payload, the key is present exactly when `masked`, and a control
/// frame is final with a short payload.
pub open spec fn valid_frame(f: FrameView) -> bool {
    &&& f.header.payloadlength == f.payload.len()
    &&& (f.header.masked <==> f.header.mask is Some)
    &&& (is_control(f.header.opcode) ==> f.header.fin && f.header.payloadlength <= 125)
}

/// Payload length tier: 7-bit immediate, 16-bit extension, or 64-bit
/// extension.
enum PayloadLength {
    U8(u8),
    U16,
    U64,
}

impl PayloadLength {
    /// The smallest legal tier for a payload length.
    fn get_format(length: u64) -> (r: Self)
        ensures
            length <= 125 ==> (r matches PayloadLength::U8(b) && b == length as u8),
            125 < length <= 0xFFFF ==> r matches PayloadLength::U16,
            0xFFFF < length ==> r matches PayloadLength::U64,
    {
        if length <= 125 {
            PayloadLength::U8(#[verifier::truncate] (length as u8))
        } else if length <= 0xFFFF {
            PayloadLength::U16
        } else {
            PayloadLength::U64
        }
    }

    /// How many extended-length bytes the tier uses.
    fn get_extra_bytes(&self) -> (r: u8)
        ensures
            r == (match self {
                PayloadLength::U8(_) => 0u8,
                PayloadLength::U16 => 2u8,
                PayloadLength::U64 => 8u8,
            }),
    {
        match self {
            PayloadLength::U8(_) => 0,
            PayloadLength::U16 => 2,
            PayloadLength::U64 => 8,
        }
    }

    /// The 7-bit length field for the tier.
    fn get_payload_lenth_byte(&self) -> (r: u8)
        ensures
            r == (match self {
                PayloadLength::U8(b) => *b,
                PayloadLength::U16 => 126u8,
                PayloadLength::U64 => 127u8,
            }),
    {
        match self {
            PayloadLength::U8(bit) => *bit,
            PayloadLength::U16 => 126,
            PayloadLength::U64 => 127,
        }
    }

    /// The tier announced by a masked 7-bit length field.
    fn parse(bytes: u8) -> (r: Self)
        ensures
            (bytes & 0x7F) == 126 ==> r matches PayloadLength::U16,
            (bytes & 0x7F) == 127 ==> r matches PayloadLength::U64,
            (bytes & 0x7F) < 126 ==> (r matches PayloadLength::U8(b) && b == (bytes & 0x7F)),
    {
        let masked_bits = bytes & 0x7F;
        if masked_bits == 127 {
            PayloadLength::U64
        } else if masked_bits == 126 {
            PayloadLength::U16
        } else {
            PayloadLength::U8(masked_bits)
        }
    }
}

impl Opcode {
    /// The opcode encoded by a nibble.
    fn parse(flags: u8) -> (r: Self)
        ensures
            r == opcode_of(flags),
    {
        if flags == 0x0 {
            Opcode::Data(Data::Continue)
        } else if flags == 0x1 {
            Opcode::Data(Data::Text)
        } else if flags == 0x2 {
            Opcode::Data(Data::Binary)
        } else if flags == 0x8 {
            Opcode::Control(Control::Close)
        } else if flags == 0x9 {
            Opcode::Control(Control::Ping)
        } else if flags == 0xA {
            Opcode::Control(Control::Pong)
        } else {
            Opcode::Reserved
        }
    }

    /// The nibble an opcode serializes as.
    fn format(&self) -> (r: u8)
        ensures
            r == opcode_bits(*self),
    {
        match self {
            Opcode::Data(Data::Continue) => 0x0,
            Opcode::Data(Data::Text) => 0x1,
            Opcode::Data(Data::Binary) => 0x2,
            Opcode::Control(Control::Close) => 0x8,
            Opcode::Control(Control::Ping) => 0x9,
            Opcode::Control(Control::Pong) => 0xA,
            Opcode::Reserved => 0xF,
        }
    }
}

impl FrameHeader {
    /// Parse a header from the start of `raw`: the header and the number
    /// of bytes consumed, or `ShortRead` when `raw` ends inside it.
    pub fn parse(raw: &[u8]) -> (r: Result<(FrameHeader, usize), WsError>)
        ensures
            r is Ok <==> spec_parse_header(raw@) is Some,
            r matches Ok((h, c)) ==> spec_parse_header(raw@) == Some((h, c as int)) && c
                <= raw@.len(),
            r is Err ==> r == Err::<(FrameHeader, usize), WsError>(WsError::ShortRead),
    {
        if raw.len() < 2 {
            return Err(WsError::ShortRead);
        }
        let first = raw[0];
        let second = raw[1];

        let fin = first & 0x80 != 0;
        let rsv1 = first & 0x40 != 0;
        let rsv2 = first & 0x20 != 0;
        let rsv3 = first & 0x10 != 0;
        let opcode = Opcode::parse(first & 0x0F);
        let masked = second & 0x80 != 0;

        let tier = PayloadLength::parse(second);
        let extra = tier.get_extra_bytes();
        proof {
            assert(second & 0x7F <= 127) by (bit_vector);
        }
        let payloadlength: u64;
        let mut off: usize;
        if extra == 2 {
            if raw.len() < 4 {
                return Err(WsError::ShortRead);
            }
            payloadlength = ((raw[2] as u64) << 8u32) | (raw[3] as u64);
            off = 4;
        } else if extra == 8 {
            if raw.len() < 10 {
                return Err(WsError::ShortRead);
            }
            payloadlength = ((raw[2] as u64) << 56u32) | ((raw[3] as u64) << 48u32) | ((
            raw[4] as u64) << 40u32) | ((raw[5] as u64) << 32u32) | ((raw[6] as u64) << 24u32) | ((
            raw[7] as u64) << 16u32) | ((raw[8] as u64) << 8u32) | (raw[9] as u64);
            off = 10;
        } else {
            payloadlength = (second & 0x7F) as u64;
            off = 2;
        }

        let mask: Option<u32>;
        if masked {
            if raw.len() < off + 4 {
                return Err(WsError::ShortRead);
            }
            mask = Some(
                ((raw[off] as u32) << 24u32) | ((raw[off + 1] as u32) << 16u32) | ((raw[off
                    + 2] as u32) << 8u32) | (raw[off + 3] as u32),
            );
            off = off + 4;
        } else {
            mask = None;
        }

        let header = FrameHeader { fin, rsv1, rsv2, rsv3, opcode, masked, payloadlength, mask };
        Ok((header, off))
    }

    /// Serialize the header to bytes.
    pub fn format(&self) -> (out: Vec<u8>)
        ensures
            out@ == spec_format_header(*self),
    {
        let fin: u8 = if self.fin {
            0x80
        } else {
            0
        };
        let rsv1: u8 = if self.rsv1 {
            0x40
        } else {
            0
        };
        let rsv2: u8 = if self.rsv2 {
            0x20
        } else {
            0
        };
        let rsv3: u8 = if self.rsv3 {
            0x10
        } else {
            0
        };
        let opcode = self.opcode.format();
        let first = fin | rsv1 | rsv2 | rsv3 | opcode;

        let length = PayloadLength::get_format(self.payloadlength);
        let maskflag: u8 = if self.masked {
            0x80
        } else {
            0
        };
        let lengthflag = length.get_payload_lenth_byte();
        let second = maskflag | lengthflag;

        let mut out: Vec<u8> = Vec::new();
        out.push(first);
        out.push(second);

        match length {
            PayloadLength::U8(_) => (),
            PayloadLength::U16 => {
                out.push(#[verifier::truncate] ((self.payloadlength >> 8u32) as u8));
                out.push(#[verifier::truncate] (self.payloadlength as u8));
            },
            PayloadLength::U64 => {
                out.push(#[verifier::truncate] ((self.payloadlength >> 56u32) as u8));
                out.push(#[verifier::truncate] ((self.payloadlength >> 48u32) as u8));
                out.push(#[verifier::truncate] ((self.payloadlength >> 40u32) as u8));
                out.push(#[verifier::truncate] ((self.payloadlength >> 32u32) as u8));
                out.push(#[verifier::truncate] ((self.payloadlength >> 24u32) as u8));
                out.push(#[verifier::truncate] ((self.payloadlength >> 16u32) as u8));
                out.push(#[verifier::truncate] ((self.payloadlength >> 8u32) as u8));
                out.push(#[verifier::truncate] (self.payloadlength as u8));
            },
        }

        match self.mask {
            Some(m) => {
                out.push(#[verifier::truncate] ((m >> 24u32) as u8));
                out.push(#[verifier::truncate] ((m >> 16u32) as u8));
                out.push(#[verifier::truncate] ((m >> 8u32) as u8));
                out.push(#[verifier::truncate] (m as u8));
            },
            None => (),
        }

        proof {
            assert(out@ =~= spec_format_header(*self));
        }
        out
    }

    /// Relies on rand::random: a fresh 32-bit value; nothing is assumed
    /// about which value comes back.
    #[verifier::external_body]
    fn get_random_mask(&self) -> u32 {
        rand::random()
    }

    /// Mark the header masked, with a freshly drawn key.
    pub fn set_random_mask(&mut self)
        ensures
            final(self).masked,
            final(self).mask is Some,
            final(self).fin == old(self).fin,
            final(self).rsv1 == old(self).rsv1,
            final(self).rsv2 == old(self).rsv2,
            final(self).rsv3 == old(self).rsv3,
            final(self).opcode == old(self).opcode,
            final(self).payloadlength == old(self).payloadlength,
    {
        self.mask = Some(self.get_random_mask());
        self.masked = true;
    }
}

impl Frame {
    /// XOR the buffer in place with the key bytes, applied positionally.
    fn applymask(target: &mut Vec<u8>, mask: u32)
        ensures
            final(target)@ == spec_apply_mask(old(target)@, mask),
    {
        let b1: u8 = #[verifier::truncate] ((mask >> 24u32) as u8);
        let b2: u8 = #[verifier::truncate] ((mask >> 16u32) as u8);
        let b3: u8 = #[verifier::truncate] ((mask >> 8u32) as u8);
        let b4: u8 = #[verifier::truncate] (mask as u8);
        let mask_u8: [u8; 4] = [b1, b2, b3, b4];

        let n = target.len();
        let mut idx: usize = 0;
        while idx < n
            invariant
                idx <= n,
                n == target@.len(),
                mask_u8@ =~= mask_key_bytes(mask),
                forall|i: int| idx <= i < n ==> target@[i] == old(target)@[i],
                forall|i: int|
                    0 <= i < idx ==> target@[i] == (old(target)@[i] ^ mask_key_bytes(mask)[i % 4]),
            decreases n - idx,
        {
            target[idx] = target[idx] ^ mask_u8[idx % 4];
            idx += 1;
        }
        proof {
            assert(target@ =~= spec_apply_mask(old(target)@, mask));
        }
    }

    /// Parse one whole frame from `raw` under the payload-size bound, per
    /// `spec_parse_frame`; on success the stored payload is unmasked.
    pub fn parse(raw: &[u8], max_payload_size: u64) -> (r: Result<Frame, WsError>)
        ensures
            r is Ok <==> spec_parse_frame(raw@, max_payload_size) is Ok,
            r matches Ok(f) ==> spec_parse_frame(raw@, max_payload_size) == Ok::<
                FrameView,
                WsError,
            >(f@),
            r matches Err(e) ==> spec_parse_frame(raw@, max_payload_size) == Err::<
                FrameView,
                WsError,
            >(e),
    {
        let (header, off) = match FrameHeader::parse(raw) {
            Ok(x) => x,
            Err(_) => {
                return Err(WsError::ShortRead);
            },
        };

        if header.payloadlength > max_payload_size {
            return Err(WsError::OversizedPayload);
        }
        let ctrl = match header.opcode {
            Opcode::Control(_) => true,
            _ => false,
        };
        if ctrl && (!header.fin || header.payloadlength > 125) {
            return Err(WsError::ProtocolError);
        }
        let n = raw.len();
        if ((n - off) as u64) < header.payloadlength {
            return Err(WsError::ShortRead);
        }

        let plen = header.payloadlength as usize;
        let mut payload: Vec<u8> = Vec::new();
        let mut k: usize = 0;
        while k < plen
            invariant
                k <= plen,
                off + plen <= n,
                n == raw@.len(),
                payload@ =~= raw@.subrange(off as int, off as int + k),
            decreases plen - k,
        {
            payload.push(raw[off + k]);
            proof {
                assert(payload@ =~= raw@.subrange(off as int, off as int + k + 1));
            }
            k += 1;
        }

        match header.mask {
            Some(m) => {
                Frame::applymask(&mut payload, m);
            },
            None => (),
        }

        Ok(Frame { header, payload })
    }

    /// Serialize the frame, masking the payload exactly when the header
    /// carries a key.
    pub fn format(&self) -> (out: Vec<u8>)
        ensures
            out@ == spec_format_frame(self@),
    {
        let mut out = self.header.format();
        let mut body = vstd::slice::slice_to_vec(self.payload.as_slice());
        match self.header.mask {
            Some(m) => {
                Frame::applymask(&mut body, m);
            },
            None => (),
        }
        out.append(&mut body);
        proof {
            assert(out@ =~= spec_format_frame(self@));
        }
        out
    }

    /// A final, unmasked text frame carrying the UTF-8 bytes of `msg`.
    pub fn create_msg_frame(msg: String) -> (f: Frame)
        ensures
            f.header == (FrameHeader {
                fin: true,
                rsv1: false,
                rsv2: false,
                rsv3: false,
                opcode: Opcode::Data(Data::Text),
                masked: false,
                payloadlength: vstd::utf8::encode_utf8(msg@).len() as u64,
                mask: None,
            }),
            f.payload@ == vstd::utf8::encode_utf8(msg@),
            f@ == text_frame_view(msg@),
            valid_frame(f@),
    {
        let bytes = msg.as_str().as_bytes();
        let header = FrameHeader {
            fin: true,
            rsv1: false,
            rsv2: false,
            rsv3: false,
            opcode: Opcode::Data(Data::Text),
            mask: None,
            masked: false,
            payloadlength: bytes.len() as u64,
        };
        let payload = vstd::slice::slice_to_vec(bytes);
        Frame { header, payload }
    }

    /// A final, unmasked pong frame echoing the ping's application data.
    pub fn create_pong_frame(echo: &[u8]) -> (f: Frame)
        requires
            echo@.len() <= 125,
        ensures
            f.header == (FrameHeader {
                fin: true,
                rsv1: false,
                rsv2: false,
                rsv3: false,
                opcode: Opcode::Control(Control::Pong),
                masked: false,
                payloadlength: echo@.len() as u64,
                mask: None,
            }),
            f.payload@ == echo@,
            f@ == pong_frame_view(echo@),
            valid_frame(f@),
    {
        let header = FrameHeader {
            fin: true,
            rsv1: false,
            rsv2: false,
            rsv3: false,
            opcode: Opcode::Control(Control::Pong),
            mask: None,
            masked: false,
            payloadlength: echo.len() as u64,
        };
        let payload = vstd::slice::slice_to_vec(echo);
        Frame { header, payload }
    }

    /// A final, unmasked close frame; with a status code the payload is
    /// the code's two big-endian bytes, without one it is empty.
    pub fn create_close_frame(code: Option<u16>) -> (f: Frame)
        ensures
            f.header.fin && !f.header.rsv1 && !f.header.rsv2 && !f.header.rsv3,
            f.header.opcode == Opcode::Control(Control::Close),
            !f.header.masked && f.header.mask is None,
            code matches Some(c) ==> f.payload@ =~= seq![(c >> 8u32) as u8, c as u8],
            code is None ==> f.payload@ =~= Seq::<u8>::empty(),
            f.header.payloadlength == f.payload@.len(),
            f@ == close_frame_view(code),
            valid_frame(f@),
    {
        let mut payload: Vec<u8> = Vec::new();
        match code {
            Some(c) => {
                payload.push((c >> 8u32) as u8);
                payload.push(#[verifier::truncate] (c as u8));
            },
            None => (),
        }
        let header = FrameHeader {
            fin: true,
            rsv1: false,
            rsv2: false,
            rsv3: false,
            opcode: Opcode::Control(Control::Close),
            mask: None,
            masked: false,
            payloadlength: payload.len() as u64,
        };
        Frame { header, payload }
    }
}

// ---------------------------------------------------------------------
// Round-trip laws: parsing inverts serialization.
// ---------------------------------------------------------------------
/// An opcode survives the trip through its nibble encoding.
proof fn lemma_opcode_roundtrip(op: Opcode)
    ensures
        opcode_of(opcode_bits(op)) == op,
{
    match op {
        Opcode::Data(Data::Continue) => (),
        Opcode::Data(Data::Text) => (),
        Opcode::Data(Data::Binary) => (),
        Opcode::Control(Control::Close) => (),
        Opcode::Control(Control::Ping) => (),
        Opcode::Control(Control::Pong) => (),
        Opcode::Reserved => (),
    }
}

/// An opcode nibble fits in four bits.
proof fn lemma_opcode_bits_bound(op: Opcode)
    ensures
        opcode_bits(op) < 16,
{
    match op {
        Opcode::Data(Data::Continue) => (),
        Opcode::Data(Data::Text) => (),
        Opcode::Data(Data::Binary) => (),
        Opcode::Control(Control::Close) => (),
        Opcode::Control(Control::Ping) => (),
        Opcode::Control(Control::Pong) => (),
        Opcode::Reserved => (),
    }
}

/// The four flag bits and the opcode nibble of the first header byte can
/// each be read back out of their disjunction.
proof fn lemma_first_byte_fields(fin: u8, r1: u8, r2: u8, r3: u8, op: u8)
    by (bit_vector)
    requires
        fin == 0x80 || fin == 0,
        r1 == 0x40 || r1 == 0,
        r2 == 0x20 || r2 == 0,
        r3 == 0x10 || r3 == 0,
        op < 16,
    ensures
        ((fin | r1 | r2 | r3 | op) & 0x80 != 0) == (fin == 0x80),
        ((fin | r1 | r2 | r3 | op) & 0x40 != 0) == (r1 == 0x40),
        ((fin | r1 | r2 | r3 | op) & 0x20 != 0) == (r2 == 0x20),
        ((fin | r1 | r2 | r3 | op) & 0x10 != 0) == (r3 == 0x10),
        (fin | r1 | r2 | r3 | op) & 0x0F == op,
{
}

/// The mask bit and the 7-bit length field of the second header byte can
/// each be read back out of their disjunction.
proof fn lemma_second_byte_fields(m: u8, l: u8)
    by (bit_vector)
    requires
        m == 0x80 || m == 0,
        l <= 127,
    ensures
        ((m | l) & 0x80 != 0) == (m == 0x80),
        (m | l) & 0x7F == l,
{
}

/// A 16-bit length survives the trip through two big-endian bytes.
proof fn lemma_be16_roundtrip(len: u64)
    by (bit_vector)
    requires
        len <= 0xFFFF,
    ensures
        ((((len >> 8u32) as u8) as u64) << 8u32) | ((len as u8) as u64) == len,
{
}

/// A 64-bit length survives the trip through eight big-endian bytes.
proof fn lemma_be64_roundtrip(len: u64)
    by (bit_vector)
    ensures
        ((((len >> 56u32) as u8) as u64) << 56u32) | ((((len >> 48u32) as u8) as u64) << 48u32) | ((((
        len >> 40u32) as u8) as u64) << 40u32) | ((((len >> 32u32) as u8) as u64) << 32u32) | ((((len
            >> 24u32) as u8) as u64) << 24u32) | ((((len >> 16u32) as u8) as u64) << 16u32) | ((((len
            >> 8u32) as u8) as u64) << 8u32) | ((len as u8) as u64) == len,
{
}

/// A 32-bit masking key survives the trip through four big-endian bytes.
proof fn lemma_be32_roundtrip(m: u32)
    by (bit_vector)
    ensures
        ((((m >> 24u32) as u8) as u32) << 24u32) | ((((m >> 16u32) as u8) as u32) << 16u32) | ((((m
            >> 8u32) as u8) as u32) << 8u32) | ((m as u8) as u32) == m,
{
}

/// XOR with the same byte twice gives the original byte back.
proof fn lemma_xor_involution()
    by (bit_vector)
    ensures
        forall|a: u8, b: u8| #[trigger] ((a ^ b) ^ b) == a,
{
}

/// Masking a payload twice with the same key gives the payload back.
pub proof fn lemma_unmask_involution(payload: Seq<u8>, mask: u32)
    ensures
        spec_apply_mask(spec_apply_mask(payload, mask), mask) == payload,
{
    lemma_xor_involution();
    assert(spec_apply_mask(spec_apply_mask(payload, mask), mask) =~= payload);
}

/// A serialized header parses back to itself, whatever bytes follow it,
/// consuming exactly its own length.
pub proof fn lemma_header_round_trip(h: FrameHeader, tail: Seq<u8>)
    requires
        h.masked <==> h.mask is Some,
    ensures
        spec_parse_header(spec_format_header(h) + tail) == Some(
            (h, spec_format_header(h).len() as int),
        ),
{
    let hb = spec_format_header(h);
    let wire = hb + tail;
    let ext = len_ext_bytes(h.payloadlength);
    let maskb: Seq<u8> = match h.mask {
        Some(m) => mask_key_bytes(m),
        None => Seq::empty(),
    };
    assert(hb =~= seq![first_header_byte(h), second_header_byte(h)] + ext + maskb);

    let finb: u8 = if h.fin {
        0x80
    } else {
        0
    };
    let r1b: u8 = if h.rsv1 {
        0x40
    } else {
        0
    };
    let r2b: u8 = if h.rsv2 {
        0x20
    } else {
        0
    };
    let r3b: u8 = if h.rsv3 {
        0x10
    } else {
        0
    };
    lemma_opcode_bits_bound(h.opcode);
    lemma_first_byte_fields(finb, r1b, r2b, r3b, opcode_bits(h.opcode));
    lemma_opcode_roundtrip(h.opcode);

    let mbit: u8 = if h.masked {
        0x80
    } else {
        0
    };
    let lf = len_field(h.payloadlength);
    lemma_second_byte_fields(mbit, lf);

    assert(wire[0] == first_header_byte(h));
    assert(wire[1] == second_header_byte(h));

    let len = h.payloadlength;
    if len <= 125 {
        assert(ext.len() == 0);
        assert((len as u8) as u64 == len);
    } else if len <= 0xFFFF {
        assert(ext.len() == 2);
        assert(lf == 126);
        assert(wire[2] == (len >> 8u32) as u8);
        assert(wire[3] == len as u8);
        lemma_be16_roundtrip(len);
        assert(u16_be_at(wire, 2) == len);
    } else {
        assert(ext.len() == 8);
        assert(lf == 127);
        assert(wire[2] == (len >> 56u32) as u8);
        assert(wire[3] == (len >> 48u32) as u8);
        assert(wire[4] == (len >> 40u32) as u8);
        assert(wire[5] == (len >> 32u32) as u8);
        assert(wire[6] == (len >> 24u32) as u8);
        assert(wire[7] == (len >> 16u32) as u8);
        assert(wire[8] == (len >> 8u32) as u8);
        assert(wire[9] == len as u8);
        lemma_be64_roundtrip(len);
        assert(u64_be_at(wire, 2) == len);
    }

    let off = 2 + ext.len() as int;
    match h.mask {
        Some(m) => {
            assert(wire[off] == (m >> 24u32) as u8);
            assert(wire[off + 1] == (m >> 16u32) as u8);
            assert(wire[off + 2] == (m >> 8u32) as u8);
            assert(wire[off + 3] == m as u8);
            lemma_be32_roundtrip(m);
            assert(u32_be_at(wire, off) == m);
        },
        None => (),
    }
}

/// A frame the codec accepts serializes and parses back to exactly the
/// same frame, mask key included; the payload in particular is preserved.
pub proof fn lemma_frame_round_trip(f: FrameView, max: u64)
    requires
        valid_frame(f),
        f.header.payloadlength <= max,
    ensures
        spec_parse_frame(spec_format_frame(f), max) == Ok::<FrameView, WsError>(f),
{
    let wire = spec_format_frame(f);
    let body: Seq<u8> = match f.header.mask {
        Some(m) => spec_apply_mask(f.payload, m),
        None => f.payload,
    };
    lemma_header_round_trip(f.header, body);
    let hlen = spec_format_header(f.header).len() as int;
    assert(wire.len() == hlen + f.payload.len());
    assert(wire.subrange(hlen, hlen + f.header.payloadlength as int) =~= body);
    match f.header.mask {
        Some(m) => {
            lemma_unmask_involution(f.payload, m);
        },
        None => (),
    }
    assert(spec_parse_frame(wire, max)->Ok_0 =~= f);
}

/// Every frame the parser returns is well formed and within the bound.
pub proof fn lemma_parse_valid(raw: Seq<u8>, max: u64)
    ensures
        spec_parse_frame(raw, max) matches Ok(f) ==> valid_frame(f) && f.header.payloadlength
            <= max,
{
}

/// Parsing is idempotent under a round trip: serializing a parsed frame
/// and parsing the result yields the same frame again.
pub proof fn lemma_parse_format_parse(raw: Seq<u8>, max: u64)
    requires
        spec_parse_frame(raw, max) is Ok,
    ensures
        spec_parse_frame(spec_format_frame(spec_parse_frame(raw, max)->Ok_0), max)
            == spec_parse_frame(raw, max),
{
    lemma_parse_valid(raw, max);
    lemma_frame_round_trip(spec_parse_frame(raw, max)->Ok_0, max);
}

/// A frame with a payload of at most 125 bytes serializes to exactly two
/// header bytes, four key bytes when masked, and the payload itself; the
/// low seven bits of the second byte are the payload length.
pub proof fn lemma_short_frame_layout(f: FrameView)
    requires
        valid_frame(f),
        f.header.payloadlength <= 125,
    ensures
        spec_format_frame(f).len() == 2 + (if f.header.masked {
            4int
        } else {
            0int
        }) + f.payload.len(),
        (spec_format_frame(f)[1] & 0x7F) as u64 == f.header.payloadlength,
        spec_format_frame(f).skip(2 + (if f.header.masked {
            4int
        } else {
            0int
        })) == (match f.header.mask {
            Some(m) => spec_apply_mask(f.payload, m),
            None => f.payload,
        }),
{
    let mbit: u8 = if f.header.masked {
        0x80
    } else {
        0
    };
    let lf = len_field(f.header.payloadlength);
    lemma_second_byte_fields(mbit, lf);
    assert(spec_format_frame(f)[1] == second_header_byte(f.header));
    assert(spec_format_frame(f).skip(2 + (if f.header.masked {
        4int
    } else {
        0int
    })) =~= (match f.header.mask {
        Some(m) => spec_apply_mask(f.payload, m),
        None => f.payload,
    }));
}

/// The value of a final, unmasked text frame carrying the UTF-8 bytes of
/// a message.
pub open spec fn text_frame_view(msg: Seq<char>) -> FrameView {
    FrameView {
        header: FrameHeader {
            fin: true,
            rsv1: false,
            rsv2: false,
            rsv3: false,
            opcode: Opcode::Data(Data::Text),
            masked: false,
            payloadlength: vstd::utf8::encode_utf8(msg).len() as u64,
            mask: None,
        },
        payload: vstd::utf8::encode_utf8(msg),
    }
}

/// The value of a final, unmasked pong frame echoing `echo`.
pub open spec fn pong_frame_view(echo: Seq<u8>) -> FrameView {
    FrameView {
        header: FrameHeader {
            fin: true,
            rsv1: false,
            rsv2: false,
            rsv3: false,
            opcode: Opcode::Control(Control::Pong),
            masked: false,
            payloadlength: echo.len() as u64,
            mask: None,
        },
        payload: echo,
    }
}

/// The value of a final, unmasked close frame: two big-endian status
/// bytes with a code, an empty payload without one.
pub open spec fn close_frame_view(code: Option<u16>) -> FrameView {
    let payload: Seq<u8> = match code {
        Some(c) => seq![(c >> 8u32) as u8, c as u8],
        None => Seq::empty(),
    };
    FrameView {
        header: FrameHeader {
            fin: true,
            rsv1: false,
            rsv2: false,
            rsv3: false,
            opcode: Opcode::Control(Control::Close),
            masked: false,
            payloadlength: payload.len() as u64,
            mask: None,
        },
        payload,
    }
}

} // verus!
