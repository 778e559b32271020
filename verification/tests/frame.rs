use bytes::{BufMut, Bytes, BytesMut};
use sockudo_ws::frame::{
    encode_frame, encode_frame_header, encode_frame_header_with_rsv, encode_frame_with_rsv,
    FrameHeader, FrameParser,
};
use sockudo_ws::simd::{apply_mask, apply_mask_offset};
use sockudo_ws::{Error, Frame, OpCode};

#[test]
fn test_opcode() {
    assert!(OpCode::Ping.is_control());
    assert!(OpCode::Pong.is_control());
    assert!(OpCode::Close.is_control());
    assert!(!OpCode::Text.is_control());
    assert!(!OpCode::Binary.is_control());
    assert!(OpCode::Text.is_data());
    assert!(OpCode::Binary.is_data());
    assert!(OpCode::Continuation.is_data());
}

#[test]
fn test_parse_small_unmasked() {
    let mut parser = FrameParser::new(1024 * 1024, false);
    let mut buf = BytesMut::from(&[0x81, 0x05, b'h', b'e', b'l', b'l', b'o'][..]);

    let frame = parser.parse(&mut buf).unwrap().unwrap();
    assert!(frame.header.fin);
    assert_eq!(frame.header.opcode, OpCode::Text);
    assert_eq!(frame.payload.as_ref(), b"hello");
}

#[test]
fn test_parse_small_masked() {
    let mut parser = FrameParser::new(1024 * 1024, true);
    let mask = [0x37, 0xfa, 0x21, 0x3d];

    // "Hello" masked with the above key
    let mut payload = *b"Hello";
    apply_mask(&mut payload, mask);

    let mut buf = BytesMut::new();
    buf.put_u8(0x81); // FIN + Text
    buf.put_u8(0x85); // Masked + length 5
    buf.put_slice(&mask);
    buf.put_slice(&payload);

    let frame = parser.parse(&mut buf).unwrap().unwrap();
    assert_eq!(frame.payload.as_ref(), b"Hello");
}

#[test]
fn test_parse_medium_length() {
    let mut parser = FrameParser::new(1024 * 1024, false);
    let payload = vec![0x42u8; 200];

    let mut buf = BytesMut::new();
    buf.put_u8(0x82); // FIN + Binary
    buf.put_u8(126); // Extended length marker
    buf.put_u16(200); // Actual length
    buf.put_slice(&payload);

    let frame = parser.parse(&mut buf).unwrap().unwrap();
    assert_eq!(frame.header.opcode, OpCode::Binary);
    assert_eq!(frame.payload.len(), 200);
}

#[test]
fn test_encode_frame() {
    let mut buf = BytesMut::new();
    encode_frame(&mut buf, OpCode::Text, b"hello", true, None);

    assert_eq!(buf[0], 0x81); // FIN + Text
    assert_eq!(buf[1], 0x05); // Length 5
    assert_eq!(&buf[2..], b"hello");
}

#[test]
fn test_encode_frame_header_matches_frame_prefix() {
    let payload = vec![0x42; 8192];
    let mut frame = BytesMut::new();
    let mut header = BytesMut::new();

    encode_frame(&mut frame, OpCode::Binary, &payload, true, None);
    encode_frame_header(&mut header, OpCode::Binary, payload.len(), true, None);

    assert_eq!(&frame[..header.len()], &header[..]);
    assert_eq!(&frame[header.len()..], &payload);
}

#[test]
fn test_encode_frame_masked() {
    let mask = [0x01, 0x02, 0x03, 0x04];
    let mut buf = BytesMut::new();
    encode_frame(&mut buf, OpCode::Text, b"test", true, Some(mask));

    assert_eq!(buf[0], 0x81); // FIN + Text
    assert_eq!(buf[1], 0x84); // Masked + Length 4
    assert_eq!(&buf[2..6], &mask);

    // Unmask and verify
    let mut payload = buf[6..].to_vec();
    apply_mask(&mut payload, mask);
    assert_eq!(&payload, b"test");
}

#[test]
fn test_control_frame_fragmentation() {
    let mut parser = FrameParser::new(1024, false);
    let mut buf = BytesMut::from(&[0x09, 0x00][..]); // Ping, FIN=0 (invalid)
    buf[0] = 0x09; // Ping without FIN

    let result = parser.parse(&mut buf);
    assert!(result.is_err());
}

#[test]
fn test_close_frame() {
    let frame = Frame::close(1000, "goodbye");
    assert_eq!(frame.header.opcode, OpCode::Close);

    let close = frame.parse_close().unwrap();
    assert_eq!(close.code, 1000);
    assert_eq!(close.reason, "goodbye");
}

#[test]
fn opcodes_convert_both_ways() {
    for byte in 0u8..=255 {
        match OpCode::from_u8(byte) {
            Some(op) => assert_eq!(op.to_u8(), byte),
            None => assert!(!matches!(byte, 0..=2 | 8..=10)),
        }
    }
}

#[test]
fn frames_of_every_length_form_come_back() {
    for len in [0usize, 1, 125, 126, 65535, 65536, 70000] {
        for mask in [None, Some([9u8, 8, 7, 6])] {
            let payload: Vec<u8> = (0..len).map(|i| (i % 251) as u8).collect();
            let mut buf = BytesMut::new();
            encode_frame(&mut buf, OpCode::Binary, &payload, true, mask);
            let header_len = match len {
                0..=125 => 2,
                126..=65535 => 4,
                _ => 10,
            } + if mask.is_some() { 4 } else { 0 };
            assert_eq!(buf.len(), header_len + len);
            let mut parser = FrameParser::new(1 << 20, mask.is_some());
            // Byte after byte gives the same frame as all at once.
            let mut input = BytesMut::new();
            let mut got = None;
            for (i, b) in buf.iter().enumerate() {
                input.put_u8(*b);
                if i + 8 > buf.len() || i < 20 {
                    got = parser.parse(&mut input).unwrap();
                    assert_eq!(got.is_some(), i + 1 == buf.len());
                }
            }
            let frame = got.unwrap();
            assert_eq!(frame.payload.as_ref(), payload.as_slice());
            assert!(frame.is_final());
            assert!(input.is_empty());
        }
    }
}

#[test]
fn pending_payload_is_known() {
    let mut parser = FrameParser::new(1 << 20, false);
    assert!(parser.pending_payload().is_none());
    let mut input = BytesMut::from(&[0x82u8, 0x05, 1, 2][..]);
    assert!(parser.parse(&mut input).unwrap().is_none());
    assert!(parser.pending_payload().is_some());
}

fn parse_error(bytes: &[u8], limit: usize, masked: bool) -> Error {
    let mut parser = FrameParser::new(limit, masked);
    parser.parse(&mut BytesMut::from(bytes)).err().unwrap()
}

#[test]
fn malformed_frames_are_refused() {
    // Reserved opcode
    assert!(matches!(
        parse_error(&[0x83, 0x00], 100, false),
        Error::InvalidFrame(_)
    ));
    // Reserved bit without an extension
    assert!(parse_error(&[0xc1, 0x00], 100, false).is_protocol_error());
    // Masked where it must not be, and the reverse
    assert!(parse_error(&[0x81, 0x80, 0, 0, 0, 0], 100, false).is_protocol_error());
    assert!(parse_error(&[0x81, 0x00], 100, true).is_protocol_error());
    // Control frame too long
    assert!(parse_error(&[0x89, 126, 0, 126], 1000, false).is_protocol_error());
    // Frame too large
    assert!(matches!(
        parse_error(&[0x82, 101], 100, false),
        Error::FrameTooLarge
    ));
}

#[test]
fn compressed_frames_need_compression() {
    let mut buf = BytesMut::new();
    encode_frame_with_rsv(&mut buf, OpCode::Text, b"x", true, None, true);
    assert_eq!(buf[0], 0xc1);
    let mut header = BytesMut::new();
    encode_frame_header_with_rsv(&mut header, OpCode::Text, 1, true, None, true);
    assert_eq!(&buf[..2], &header[..]);
    assert!(FrameParser::new(100, false).parse(&mut buf.clone()).is_err());
    let frame = FrameParser::with_compression(100, false)
        .parse(&mut buf.clone())
        .unwrap()
        .unwrap();
    assert!(frame.header.rsv1);
    let mut parser = FrameParser::new(100, false);
    parser.set_compression(true);
    assert!(parser.parse(&mut buf).unwrap().is_some());
}

#[test]
fn switched_parsers_find_and_leave_the_same() {
    let mut made = FrameParser::with_compression(1000, true);
    let mut switched = FrameParser::new(1000, true);
    switched.set_compression(true);
    let mut frame = BytesMut::new();
    encode_frame_with_rsv(
        &mut frame,
        OpCode::Text,
        &[7u8; 300],
        true,
        Some([1, 2, 3, 4]),
        true,
    );
    let mut a = BytesMut::new();
    let mut b = BytesMut::new();
    // Of an extended length that is not all there, two bytes are kept first.
    let left = [1, 0, 0, 0, 0, 0, 0, 0, 1, 2];
    for (i, byte) in frame.iter().enumerate() {
        a.put_u8(*byte);
        b.put_u8(*byte);
        let x = made.parse(&mut a).unwrap();
        let y = switched.parse(&mut b).unwrap();
        assert_eq!(x.is_some(), i + 1 == frame.len());
        assert_eq!(x.map(|f| f.payload), y.map(|f| f.payload));
        assert_eq!(a, b);
        if i < left.len() {
            assert_eq!(a.len(), left[i]);
        }
    }
    assert!(a.is_empty());
}

#[test]
fn frames_are_made_and_read() {
    assert_eq!(Frame::text("héllo").as_text().unwrap(), "héllo");
    assert!(Frame::binary(vec![0xffu8]).as_text().is_err());
    assert!(Frame::ping(Bytes::from_static(b"p")).is_control());
    assert_eq!(Frame::pong("q").header.opcode, OpCode::Pong);
    assert!(Frame::close_empty().parse_close().is_none());
    let frame = Frame::new(OpCode::Continuation, Bytes::from_static(b"c"), false);
    assert!(!frame.clone().is_final());
    let header: &FrameHeader = &frame.header;
    assert_eq!(header.header_size(), 2);
    let mut buf = BytesMut::new();
    header.encode(&mut buf);
    assert_eq!(&buf[..], &[0x00, 0x01]);
}

#[test]
fn masking_twice_gives_the_bytes_back() {
    let data: Vec<u8> = (0..100).collect();
    for offset in 0..4 {
        let mut masked = data.clone();
        apply_mask_offset(&mut masked, [1, 2, 3, 4], offset);
        assert_ne!(masked, data);
        assert_eq!(masked[0], data[0] ^ [1, 2, 3, 4][offset]);
        apply_mask_offset(&mut masked, [1, 2, 3, 4], offset);
        assert_eq!(masked, data);
    }
}
