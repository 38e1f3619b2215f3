use websock::frame::{Control, Data, Frame, FrameHeader, Opcode};

#[test]
fn header_format() {
    let mut header = FrameHeader {
        fin: true,
        rsv1: false,
        rsv2: false,
        rsv3: false,
        opcode: Opcode::Control(Control::Close),
        mask: None,
        masked: false,
        payloadlength: 123,
    };
    header.set_random_mask();
    println!("Header: {:?}", header);
    let formatted = header.format();

    for bt in formatted.iter() {
        println!("{:#010b} ", bt);
    }
}

#[test]
fn header_format_and_parse_2() {
    for i in 1..5 {
        let test_length;
        if i == 1 {
            test_length = 100;
        } else if i == 2 {
            test_length = 10000;
        } else if i == 3 {
            test_length = 1000000;
        } else {
            test_length = 0;
        }

        for j in 1..8 {
            let test_opcode = match j {
                1 => Opcode::Data(Data::Continue),
                2 => Opcode::Data(Data::Text),
                3 => Opcode::Data(Data::Binary),
                4 => Opcode::Control(Control::Ping),
                5 => Opcode::Control(Control::Pong),
                6 => Opcode::Control(Control::Close),
                _ => Opcode::Reserved,
            };

            for k in 1..3 {
                let test_fin = match k {
                    1 => true,
                    2 => false,
                    _ => false,
                };

                let mut header = FrameHeader {
                    fin: test_fin,
                    rsv1: false,
                    rsv2: false,
                    rsv3: false,
                    opcode: test_opcode,
                    mask: None,
                    masked: false,
                    payloadlength: test_length,
                };
                header.set_random_mask();
                println!("Header: {:?}", header);
                let formatted = header.format();

                for bt in formatted.iter() {
                    println!("{:#010b} ", bt);
                }

                let (parsed, _consumed) = FrameHeader::parse(&formatted).unwrap();
                println!("{:?}", parsed);

                assert_eq!(header, parsed);
            }
        }
    }
}

#[test]
fn empty_payload_frame_round_trips() {
    let header = FrameHeader {
        fin: true,
        rsv1: false,
        rsv2: false,
        rsv3: false,
        opcode: Opcode::Data(Data::Binary),
        mask: None,
        masked: false,
        payloadlength: 0,
    };
    let frame = Frame {
        header,
        payload: Vec::new(),
    };
    let wire = frame.format();
    let parsed = Frame::parse(&wire, 1024).unwrap();
    assert_eq!(parsed, frame);
    assert!(parsed.payload.is_empty());
}

#[test]
fn masked_frame_round_trips_with_payload_preserved() {
    let payload = b"some masked data".to_vec();
    let header = FrameHeader {
        fin: true,
        rsv1: false,
        rsv2: false,
        rsv3: false,
        opcode: Opcode::Data(Data::Binary),
        mask: Some(0xDEADBEEF),
        masked: true,
        payloadlength: payload.len() as u64,
    };
    let frame = Frame {
        header,
        payload: payload.clone(),
    };
    let wire = frame.format();
    // two header bytes, four key bytes, then the payload
    assert_eq!(wire.len(), 2 + 4 + payload.len());
    assert_eq!(u64::from(wire[1] & 0x7F), payload.len() as u64);
    // the payload travels masked on the wire
    assert_ne!(&wire[wire.len() - payload.len()..], payload.as_slice());
    let parsed = Frame::parse(&wire, 1024).unwrap();
    assert_eq!(parsed.payload, payload);
    assert_eq!(parsed, frame);
}

#[test]
fn length_tiers_use_smallest_encoding() {
    // (payload length, expected header length for an unmasked frame)
    let cases: [(u64, usize); 5] = [(125, 2), (126, 4), (65535, 4), (65536, 10), (0, 2)];
    for (len, expected_header_len) in cases.iter() {
        let header = FrameHeader {
            fin: true,
            rsv1: false,
            rsv2: false,
            rsv3: false,
            opcode: Opcode::Data(Data::Binary),
            mask: None,
            masked: false,
            payloadlength: *len,
        };
        let bytes = header.format();
        assert_eq!(bytes.len(), *expected_header_len);
        if *len <= 125 {
            assert_eq!(u64::from(bytes[1] & 0x7F), *len);
        } else if *len <= 0xFFFF {
            assert_eq!(bytes[1] & 0x7F, 126);
        } else {
            assert_eq!(bytes[1] & 0x7F, 127);
        }
        let (parsed, consumed) = FrameHeader::parse(&bytes).unwrap();
        assert_eq!(consumed, *expected_header_len);
        assert_eq!(parsed.payloadlength, *len);
    }
}

#[test]
fn oversized_control_frame_is_protocol_error() {
    // a final close frame announcing a 200-byte payload: 16-bit tier
    let mut wire: Vec<u8> = vec![0x88, 126, 0, 200];
    wire.extend(std::iter::repeat(0u8).take(200));
    let err = Frame::parse(&wire, 1 << 20).unwrap_err();
    assert_eq!(err, websock::error::WsError::ProtocolError);
}

#[test]
fn fragmented_control_frame_is_protocol_error() {
    // a close frame without FIN
    let wire: Vec<u8> = vec![0x08, 0];
    let err = Frame::parse(&wire, 1 << 20).unwrap_err();
    assert_eq!(err, websock::error::WsError::ProtocolError);
}

#[test]
fn truncated_frame_is_short_read() {
    // announces four payload bytes but carries two
    let wire: Vec<u8> = vec![0x82, 4, 1, 2];
    let err = Frame::parse(&wire, 1 << 20).unwrap_err();
    assert_eq!(err, websock::error::WsError::ShortRead);
}

#[test]
fn reparse_after_reserialize_is_identical() {
    // the wire uses a 16-bit length for a 5-byte payload; re-serializing
    // picks the minimal encoding, but the parsed frame stays the same
    let wire: Vec<u8> = vec![0x82, 126, 0, 5, 10, 20, 30, 40, 50];
    let first = Frame::parse(&wire, 1 << 20).unwrap();
    assert_eq!(first.header.payloadlength, 5);
    let rewire = first.format();
    assert_ne!(wire, rewire);
    let second = Frame::parse(&rewire, 1 << 20).unwrap();
    assert_eq!(first, second);
}
