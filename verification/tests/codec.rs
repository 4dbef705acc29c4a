use ws_frame::frame::Frame;
use ws_frame::mask::apply_mask;
use ws_frame::payload::PayloadBuffer;
use ws_frame::poll::Async;
use ws_frame::proto::{CloseCode, OpCode, ProtocolError};

type Parsed = Result<Async<Option<Frame>>, ProtocolError>;

fn source(chunks: &[&[u8]], ended: bool) -> PayloadBuffer {
    let mut pl = PayloadBuffer::new();
    for chunk in chunks {
        pl.feed(chunk.to_vec());
    }
    if ended {
        pl.feed_eof();
    }
    pl
}

fn parts(r: Parsed) -> (bool, OpCode, Vec<u8>) {
    match r {
        Ok(Async::Ready(Some(frame))) => frame.unpack(),
        other => panic!("no frame: {:?}", other),
    }
}

const VALID: [OpCode; 6] =
    [OpCode::Continue, OpCode::Text, OpCode::Binary, OpCode::Close, OpCode::Ping, OpCode::Pong];

fn pattern(len: usize) -> Vec<u8> {
    (0..len).map(|i| (i * 7 + 3) as u8).collect()
}

#[test]
fn mask_cipher_exact_bytes() {
    let mut buf = vec![0u8, 1, 2, 3, 4, 0xFF];
    apply_mask(&mut buf, u32::from_le_bytes([0x01, 0x02, 0x03, 0x04]));
    assert_eq!(buf, vec![0x01, 0x03, 0x01, 0x07, 0x05, 0xFD]);
}

#[test]
fn mask_cipher_twice_restores() {
    for len in [0usize, 1, 3, 4, 5, 17, 1000] {
        let plain = pattern(len);
        let mut buf = plain.clone();
        apply_mask(&mut buf, 0xDEAD_BEEF);
        if len > 0 {
            assert_ne!(buf, plain);
        }
        assert_eq!(buf.len(), len);
        apply_mask(&mut buf, 0xDEAD_BEEF);
        assert_eq!(buf, plain);
    }
}

#[test]
fn mask_cipher_empty_buffer() {
    let mut buf: Vec<u8> = Vec::new();
    apply_mask(&mut buf, 0x0102_0304);
    assert!(buf.is_empty());
}

#[test]
fn encode_first_byte_per_kind() {
    let codes = [0u8, 1, 2, 8, 9, 10];
    for (op, code) in VALID.iter().zip(codes.iter()) {
        assert_eq!(Frame::message(vec![], *op, false, false), vec![*code, 0]);
        assert_eq!(Frame::message(vec![], *op, true, false), vec![0x80 | *code, 0]);
    }
}

#[test]
fn encode_length_classes() {
    let cases: [(usize, Vec<u8>); 6] = [
        (0, vec![0]),
        (1, vec![1]),
        (125, vec![125]),
        (126, vec![126, 0x00, 0x7E]),
        (65535, vec![126, 0xFF, 0xFF]),
        (65536, vec![127, 0, 0, 0, 0, 0, 1, 0, 0]),
    ];
    for (len, length_field) in cases.iter() {
        let payload = pattern(*len);
        let bytes = Frame::message(payload.clone(), OpCode::Binary, true, false);
        let mut expected = vec![0x82u8];
        expected.extend(length_field);
        expected.extend(&payload);
        assert_eq!(bytes, expected);

        let mut pl = source(&[&bytes], false);
        let (finished, opcode, decoded) = parts(Frame::parse(&mut pl, false, 65536));
        assert!(finished);
        assert_eq!(opcode, OpCode::Binary);
        assert_eq!(decoded.len(), *len);
        assert_eq!(decoded, payload);
        assert_eq!(pl.len(), 0);
    }
}

#[test]
fn encode_extended_length_is_big_endian() {
    let bytes = Frame::message(pattern(300), OpCode::Text, false, false);
    assert_eq!(&bytes[..4], &[0x01, 126, 0x01, 0x2C]);
    let bytes = Frame::message(pattern(0x0001_0203), OpCode::Text, false, false);
    assert_eq!(&bytes[..10], &[0x01, 127, 0, 0, 0, 0, 0, 0x01, 0x02, 0x03]);
    assert_eq!(bytes.len(), 10 + 0x0001_0203);
}

#[test]
fn encode_with_given_mask() {
    let mask = u32::from_le_bytes([0x37, 0xFA, 0x21, 0x3D]);
    let bytes = Frame::encode(b"Hello".to_vec(), OpCode::Text, true, Some(mask));
    assert_eq!(bytes, vec![0x81, 0x85, 0x37, 0xFA, 0x21, 0x3D, 0x7F, 0x9F, 0x4D, 0x51, 0x58]);
    let bytes = Frame::encode(b"Hello".to_vec(), OpCode::Text, true, None);
    assert_eq!(bytes, vec![0x81, 0x05, b'H', b'e', b'l', b'l', b'o']);
}

#[test]
fn decode_masked_text_from_client() {
    let wire = [0x81u8, 0x85, 0x37, 0xFA, 0x21, 0x3D, 0x7F, 0x9F, 0x4D, 0x51, 0x58];
    let mut pl = source(&[&wire], false);
    let (finished, opcode, payload) = parts(Frame::parse(&mut pl, true, 1024));
    assert!(finished);
    assert_eq!(opcode, OpCode::Text);
    assert_eq!(payload, b"Hello".to_vec());
}

#[test]
fn message_with_random_mask_decodes_on_server() {
    for len in [0usize, 5, 125, 126, 70000] {
        let payload = pattern(len);
        let bytes = Frame::message(payload.clone(), OpCode::Binary, true, true);
        assert_eq!(bytes[0], 0x82);
        assert_eq!(bytes[1] & 0x80, 0x80);
        let header = if len < 126 { 6 } else if len <= 65535 { 8 } else { 14 };
        assert_eq!(bytes.len(), header + len);
        let mut pl = source(&[&bytes], false);
        let (finished, opcode, decoded) = parts(Frame::parse(&mut pl, true, 70000));
        assert!(finished);
        assert_eq!(opcode, OpCode::Binary);
        assert_eq!(decoded, payload);
    }
}

#[test]
fn roundtrip_every_kind_and_flag() {
    for op in VALID.iter() {
        for finished in [false, true] {
            for len in [0usize, 1, 2, 125] {
                for mask in [None, Some(0u32), Some(0xA1B2_C3D4)] {
                    let payload = pattern(len);
                    let bytes = Frame::encode(payload.clone(), *op, finished, mask);
                    let mut pl = source(&[&bytes], false);
                    let got = parts(Frame::parse(&mut pl, mask.is_some(), 125));
                    assert_eq!(got, (finished, *op, payload));
                    assert_eq!(pl.len(), 0);
                }
            }
        }
    }
}

#[test]
fn roundtrip_long_data_frames() {
    for op in [OpCode::Continue, OpCode::Text, OpCode::Binary] {
        for len in [126usize, 127, 4096, 65535, 65536, 100_000] {
            let payload = pattern(len);
            let bytes = Frame::message(payload.clone(), op, true, false);
            let mut pl = source(&[&bytes], true);
            assert_eq!(parts(Frame::parse(&mut pl, false, 100_000)), (true, op, payload));
        }
    }
}

#[test]
fn role_enforced_for_every_kind() {
    for nibble in 0u8..16 {
        for fin in [0u8, 0x80] {
            let masked = [fin | nibble, 0x81, 1, 2, 3, 4, 9];
            let mut pl = source(&[&masked], false);
            match Frame::parse(&mut pl, false, 1024) {
                Err(ProtocolError::MaskedFrame) => (),
                other => panic!("{:?}", other),
            }
            assert_eq!(pl.len(), 7);

            let unmasked = [fin | nibble, 0x01, 9];
            let mut pl = source(&[&unmasked], false);
            match Frame::parse(&mut pl, true, 1024) {
                Err(ProtocolError::UnmaskedFrame) => (),
                other => panic!("{:?}", other),
            }
            assert_eq!(pl.len(), 3);
        }
    }
}

#[test]
fn role_checked_on_two_bytes_alone() {
    let mut pl = source(&[&[0x81, 0xFF]], false);
    assert_eq!(Frame::parse(&mut pl, false, 0).err(), Some(ProtocolError::MaskedFrame));
    let mut pl = source(&[&[0x81], &[0x7F]], false);
    assert_eq!(Frame::parse(&mut pl, true, 0).err(), Some(ProtocolError::UnmaskedFrame));
}

#[test]
fn reserved_kinds_are_invalid() {
    for nibble in [3u8, 4, 5, 6, 7, 11, 12, 13, 14, 15] {
        let mut pl = source(&[&[0x80 | nibble, 0x00]], false);
        assert_eq!(
            Frame::parse(&mut pl, false, 1024).err(),
            Some(ProtocolError::InvalidOpcode(nibble))
        );
        assert_eq!(pl.len(), 2);
    }
}

#[test]
fn reserved_bits_do_not_change_the_kind() {
    let mut pl = source(&[&[0x71, 0x01, b'x']], false);
    assert_eq!(parts(Frame::parse(&mut pl, false, 10)), (false, OpCode::Text, b"x".to_vec()));
}

#[test]
fn overflow_before_payload_arrives() {
    // seven-bit length
    let mut pl = source(&[&[0x02, 0x05]], false);
    assert_eq!(Frame::parse(&mut pl, false, 4).err(), Some(ProtocolError::Overflow));
    assert_eq!(pl.len(), 2);
    // sixteen-bit length 1025, no payload, stream still open
    let mut pl = source(&[&[0x02, 126, 0x04, 0x01]], false);
    assert_eq!(Frame::parse(&mut pl, false, 1024).err(), Some(ProtocolError::Overflow));
    assert_eq!(pl.len(), 4);
    // the same length is accepted at the ceiling, and then waits for its payload
    let mut pl = source(&[&[0x02, 126, 0x04, 0x00]], false);
    assert!(matches!(Frame::parse(&mut pl, false, 1024), Ok(Async::NotReady)));
    // sixty-four-bit length, far beyond anything that could be buffered
    let mut pl = source(&[&[0x02, 127, 0xFF, 0xFF, 0xFF, 0xFF, 0xFF, 0xFF, 0xFF, 0xFF]], true);
    assert_eq!(Frame::parse(&mut pl, false, 1 << 20).err(), Some(ProtocolError::Overflow));
    // for a server the mask key need not have arrived either
    let mut pl = source(&[&[0x82, 0xFE, 0x04, 0x01]], false);
    assert_eq!(Frame::parse(&mut pl, true, 1024).err(), Some(ProtocolError::Overflow));
}

#[test]
fn largest_declared_length_with_no_ceiling() {
    let mut pl = source(&[&[0x02, 127, 0xFF, 0xFF, 0xFF, 0xFF, 0xFF, 0xFF, 0xFF, 0xFF]], false);
    let r = Frame::parse(&mut pl, false, usize::MAX);
    if usize::MAX as u64 == u64::MAX {
        assert!(matches!(r, Ok(Async::NotReady)));
    } else {
        assert_eq!(r.err(), Some(ProtocolError::Overflow));
    }
    assert_eq!(pl.len(), 10);
}

#[test]
fn ping_and_pong_of_126_bytes_are_refused() {
    for op in [OpCode::Ping, OpCode::Pong] {
        let bytes = Frame::message(pattern(126), op, true, false);
        let mut pl = source(&[&bytes, &[0xAA]], false);
        assert_eq!(
            Frame::parse(&mut pl, false, 1024).err(),
            Some(ProtocolError::InvalidLength(126))
        );
        assert_eq!(pl.len(), 1);

        let bytes = Frame::message(pattern(125), op, true, false);
        let mut pl = source(&[&bytes], false);
        assert_eq!(parts(Frame::parse(&mut pl, false, 1024)), (true, op, pattern(125)));
    }
}

#[test]
fn long_control_frame_waits_for_its_payload() {
    let bytes = Frame::message(pattern(126), OpCode::Ping, true, false);
    let mut pl = source(&[&bytes[..100]], false);
    assert!(matches!(Frame::parse(&mut pl, false, 1024), Ok(Async::NotReady)));
    assert_eq!(pl.len(), 100);
}

#[test]
fn close_of_126_bytes_becomes_plain_close() {
    let bytes = Frame::message(pattern(126), OpCode::Close, false, false);
    let mut pl = source(&[&bytes, &[0xAA, 0xBB]], false);
    assert_eq!(parts(Frame::parse(&mut pl, false, 1024)), (true, OpCode::Close, vec![]));
    assert_eq!(pl.len(), 2);

    let bytes = Frame::encode(pattern(200), OpCode::Close, true, Some(77));
    let mut pl = source(&[&bytes], false);
    assert_eq!(parts(Frame::parse(&mut pl, true, 1024)), (true, OpCode::Close, vec![]));
    assert_eq!(pl.len(), 0);
}

#[test]
fn fragmented_in_two_at_every_boundary() {
    let frames = [
        Frame::encode(pattern(5), OpCode::Text, true, None),
        Frame::encode(pattern(5), OpCode::Text, true, Some(0x0A0B_0C0D)),
        Frame::encode(pattern(130), OpCode::Binary, false, None),
        Frame::encode(pattern(130), OpCode::Binary, false, Some(0xFFEE_DDCC)),
        Frame::encode(pattern(65536), OpCode::Binary, true, None),
        Frame::encode(pattern(65536), OpCode::Binary, true, Some(1)),
    ];
    for bytes in frames.iter() {
        let server = bytes[1] & 0x80 != 0;
        let mut whole = source(&[bytes], false);
        let expected = parts(Frame::parse(&mut whole, server, 65536));
        let stride = if bytes.len() > 1000 { 4099 } else { 1 };
        let mut cuts: Vec<usize> = (0..=20.min(bytes.len())).collect();
        cuts.extend((21..=bytes.len()).step_by(stride));
        for cut in cuts {
            let mut pl = source(&[&bytes[..cut], &bytes[cut..]], false);
            assert_eq!(parts(Frame::parse(&mut pl, server, 65536)), expected);
            assert_eq!(pl.len(), 0);
        }
    }
}

#[test]
fn fragmented_in_three_and_bytewise() {
    let bytes = Frame::encode(pattern(300), OpCode::Binary, true, Some(0x1234_5678));
    for a in 0..=16 {
        for b in a..=16 {
            let mut pl = source(&[&bytes[..a], &bytes[a..b], &bytes[b..]], true);
            assert_eq!(
                parts(Frame::parse(&mut pl, true, 300)),
                (true, OpCode::Binary, pattern(300))
            );
        }
    }
    let mut pl = PayloadBuffer::new();
    for b in bytes.iter() {
        pl.feed(vec![*b]);
    }
    assert_eq!(parts(Frame::parse(&mut pl, true, 300)), (true, OpCode::Binary, pattern(300)));
}

#[test]
fn arriving_byte_by_byte_waits_then_decodes() {
    let bytes = Frame::encode(pattern(200), OpCode::Text, true, Some(0xCAFE_F00D));
    let mut pl = PayloadBuffer::new();
    assert!(matches!(Frame::parse(&mut pl, true, 1024), Ok(Async::NotReady)));
    for (i, b) in bytes.iter().enumerate() {
        pl.feed(vec![*b]);
        let r = Frame::parse(&mut pl, true, 1024);
        if i + 1 < bytes.len() {
            assert!(matches!(r, Ok(Async::NotReady)));
            assert_eq!(pl.len(), i + 1);
        } else {
            assert_eq!(parts(r), (true, OpCode::Text, pattern(200)));
            assert_eq!(pl.len(), 0);
        }
    }
}

#[test]
fn end_of_stream_inside_a_frame() {
    let bytes = Frame::encode(pattern(200), OpCode::Text, true, Some(5));
    for cut in [0usize, 1, 2, 3, 4, 7, 8, 100, 207] {
        let mut pl = source(&[&bytes[..cut]], true);
        assert!(matches!(Frame::parse(&mut pl, true, 1024), Ok(Async::Ready(None))));
        assert_eq!(pl.len(), cut);
        let mut pl = source(&[&bytes[..cut]], false);
        assert!(matches!(Frame::parse(&mut pl, true, 1024), Ok(Async::NotReady)));
        assert_eq!(pl.len(), cut);
    }
}

#[test]
fn frames_decode_in_arrival_order() {
    let mut wire = Frame::message(b"one".to_vec(), OpCode::Text, false, false);
    wire.extend(Frame::message(vec![], OpCode::Ping, true, false));
    wire.extend(Frame::message(pattern(126), OpCode::Continue, true, false));
    let mut pl = source(&[&wire[..4], &wire[4..9], &wire[9..]], true);
    assert_eq!(parts(Frame::parse(&mut pl, false, 1024)), (false, OpCode::Text, b"one".to_vec()));
    assert_eq!(parts(Frame::parse(&mut pl, false, 1024)), (true, OpCode::Ping, vec![]));
    assert_eq!(parts(Frame::parse(&mut pl, false, 1024)), (true, OpCode::Continue, pattern(126)));
    assert!(matches!(Frame::parse(&mut pl, false, 1024), Ok(Async::Ready(None))));
}

#[test]
fn close_frame_payloads() {
    assert_eq!(Frame::close(CloseCode::Empty, "ignored", false), vec![0x88, 0x00]);
    assert_eq!(Frame::close(CloseCode::Normal, "", false), vec![0x88, 0x02, 0x03, 0xE8]);
    assert_eq!(
        Frame::close(CloseCode::Away, "bye", false),
        vec![0x88, 0x05, 0x03, 0xE9, b'b', b'y', b'e']
    );
    assert_eq!(
        Frame::close(CloseCode::Tls, "é", false),
        vec![0x88, 0x04, 0x03, 0xF7, 0xC3, 0xA9]
    );
}

#[test]
fn close_frame_masked_decodes_on_server() {
    let bytes = Frame::close(CloseCode::Policy, "no", true);
    assert_eq!(bytes[0], 0x88);
    assert_eq!(bytes[1], 0x84);
    assert_eq!(bytes.len(), 10);
    let mut pl = source(&[&bytes], false);
    assert_eq!(
        parts(Frame::parse(&mut pl, true, 125)),
        (true, OpCode::Close, vec![0x03, 0xF0, b'n', b'o'])
    );
    let bytes = Frame::close(CloseCode::Empty, "no", true);
    assert_eq!(bytes.len(), 6);
    assert_eq!(&bytes[..2], &[0x88, 0x80]);
}

#[test]
fn default_frame_is_plain_close() {
    let frame = Frame::default();
    assert!(frame.finished());
    assert_eq!(frame.opcode(), OpCode::Close);
    assert!(frame.payload().is_empty());
    assert_eq!(frame.unpack(), (true, OpCode::Close, vec![]));
}

#[test]
fn each_error_has_an_input() {
    let mut pl = source(&[&[0x81, 0x00]], false);
    assert_eq!(Frame::parse(&mut pl, true, 10).err(), Some(ProtocolError::UnmaskedFrame));
    let mut pl = source(&[&[0x81, 0x80]], false);
    assert_eq!(Frame::parse(&mut pl, false, 10).err(), Some(ProtocolError::MaskedFrame));
    let mut pl = source(&[&[0x8B, 0x00]], false);
    assert_eq!(Frame::parse(&mut pl, false, 10).err(), Some(ProtocolError::InvalidOpcode(11)));
    let mut pl = source(&[&[0x81, 0x0B]], false);
    assert_eq!(Frame::parse(&mut pl, false, 10).err(), Some(ProtocolError::Overflow));
    let mut wire = vec![0x8A, 126, 0x00, 0x7E];
    wire.extend(pattern(126));
    let mut pl = source(&[&wire], false);
    assert_eq!(Frame::parse(&mut pl, false, 126).err(), Some(ProtocolError::InvalidLength(126)));
}

#[test]
fn masking_is_checked_before_the_kind() {
    let mut pl = source(&[&[0x83, 0x80]], false);
    assert_eq!(Frame::parse(&mut pl, false, 10).err(), Some(ProtocolError::MaskedFrame));
    let mut pl = source(&[&[0x83, 0x7F]], false);
    assert_eq!(Frame::parse(&mut pl, false, 10).err(), Some(ProtocolError::InvalidOpcode(3)));
}

#[test]
fn header_fields_from_one_piece() {
    let wire = [0x82u8, 0xFE, 0x01, 0x02, 0x0A, 0x0B, 0x0C, 0x0D, 0x00];
    let h = match Frame::read_chunk_md(&wire, true, 1024) {
        Ok(Async::Ready(h)) => h,
        other => panic!("{:?}", other),
    };
    assert_eq!(h.idx, 8);
    assert!(h.finished);
    assert_eq!(h.opcode, OpCode::Binary);
    assert_eq!(h.length, 0x0102);
    assert_eq!(h.mask, Some(u32::from_le_bytes([0x0A, 0x0B, 0x0C, 0x0D])));
    for cut in 0..8 {
        assert_eq!(Frame::read_chunk_md(&wire[..cut], true, 1024), Ok(Async::NotReady));
    }
    let h = Frame::read_chunk_md(&[0x01, 0x7D], false, 125);
    match h {
        Ok(Async::Ready(h)) => {
            assert_eq!((h.idx, h.finished, h.opcode, h.length, h.mask), (2, false, OpCode::Text, 125, None))
        }
        other => panic!("{:?}", other),
    }
}

#[test]
fn header_fields_across_chunks() {
    let wire = [0x89u8, 0xFF, 0, 0, 0, 0, 0, 0x01, 0x00, 0x00, 1, 2, 3, 4];
    for cut in 0..wire.len() {
        let pl = source(&[&wire[..cut], &wire[cut..]], false);
        let h = match Frame::read_copy_md(&pl, true, 65536) {
            Ok(Async::Ready(Some(h))) => h,
            other => panic!("{:?}", other),
        };
        assert_eq!(
            (h.idx, h.finished, h.opcode, h.length, h.mask),
            (14, true, OpCode::Ping, 65536, Some(u32::from_le_bytes([1, 2, 3, 4])))
        );
        assert_eq!(pl.len(), 14);

        let pl = source(&[&wire[..cut]], false);
        assert_eq!(Frame::read_copy_md(&pl, true, 65536), Ok(Async::NotReady));
        let pl = source(&[&wire[..cut]], true);
        assert_eq!(Frame::read_copy_md(&pl, true, 65536), Ok(Async::Ready(None)));
    }
}
