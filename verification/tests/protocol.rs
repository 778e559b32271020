use bytes::{Bytes, BytesMut};
use sockudo_ws::compressed_protocol::{CompressedReaderProtocol, CompressedWriterProtocol};
use sockudo_ws::frame::encode_frame;
use sockudo_ws::protocol::Protocol;
use sockudo_ws::simd::apply_mask;
use sockudo_ws::{
    CompressedProtocol, DeflateConfig, Error, Message, OpCode, RawMessage, Role,
};

#[test]
fn text_accessors_reject_publicly_constructed_invalid_utf8() {
    let message = Message::Text(Bytes::from_static(b"\xff"));
    assert!(message.as_text().is_none());
    assert!(message.into_text().is_none());
}

#[test]
fn text_accessors_preserve_publicly_constructed_unicode() {
    let message = Message::Text(Bytes::from_static("行情".as_bytes()));
    assert_eq!(message.as_text(), Some("行情"));
    assert_eq!(message.into_text().as_deref(), Some("行情"));
}

#[test]
fn test_message_text() {
    let mut protocol = Protocol::new(Role::Server, 1024 * 1024, 64 * 1024 * 1024);

    // Simulate receiving a text frame
    let mut buf = BytesMut::new();
    buf.extend_from_slice(&[0x81, 0x85]); // FIN + Text, Masked + len 5
    buf.extend_from_slice(&[0x37, 0xfa, 0x21, 0x3d]); // Mask

    // "Hello" XORed with mask
    let mut payload = *b"Hello";
    apply_mask(&mut payload, [0x37, 0xfa, 0x21, 0x3d]);
    buf.extend_from_slice(&payload);

    let messages = protocol.process(&mut buf).unwrap();
    assert_eq!(messages.len(), 1);

    if let Message::Text(s) = &messages[0] {
        assert_eq!(s, "Hello");
    } else {
        panic!("Expected text message");
    }
}

#[test]
fn test_fragmented_message() {
    let mut protocol = Protocol::new(Role::Server, 1024 * 1024, 64 * 1024 * 1024);

    // First fragment
    let mut buf = BytesMut::new();
    buf.extend_from_slice(&[0x01, 0x83]); // Text (not FIN), Masked + len 3
    buf.extend_from_slice(&[0x00, 0x00, 0x00, 0x00]); // Zero mask
    buf.extend_from_slice(b"Hel");

    let messages = protocol.process(&mut buf).unwrap();
    assert!(messages.is_empty());

    // Final fragment
    buf.extend_from_slice(&[0x80, 0x82]); // Continuation + FIN, Masked + len 2
    buf.extend_from_slice(&[0x00, 0x00, 0x00, 0x00]); // Zero mask
    buf.extend_from_slice(b"lo");

    let messages = protocol.process(&mut buf).unwrap();
    assert_eq!(messages.len(), 1);

    if let Message::Text(s) = &messages[0] {
        assert_eq!(s, "Hello");
    } else {
        panic!("Expected text message");
    }
}

#[test]
fn test_encode_message() {
    let mut protocol = Protocol::new(Role::Server, 1024 * 1024, 64 * 1024 * 1024);
    let mut buf = BytesMut::new();

    protocol
        .encode_message(&Message::text("test"), &mut buf)
        .unwrap();

    assert_eq!(buf[0], 0x81); // FIN + Text
    assert_eq!(buf[1], 0x04); // Length 4 (no mask for server)
    assert_eq!(&buf[2..], b"test");
}

#[test]
fn test_raw_text_skips_utf8_validation() {
    let mut raw_protocol = Protocol::new(Role::Server, 1024 * 1024, 64 * 1024 * 1024);
    let mut validated_protocol = Protocol::new(Role::Server, 1024 * 1024, 64 * 1024 * 1024);
    let mask = [0, 0, 0, 0];

    let mut raw_buf = BytesMut::new();
    encode_frame(&mut raw_buf, OpCode::Text, &[0xff], true, Some(mask));
    let mut validated_buf = raw_buf.clone();

    let raw_messages = raw_protocol.process_raw(&mut raw_buf).unwrap();
    assert_eq!(raw_messages.len(), 1);
    assert!(matches!(&raw_messages[0], RawMessage::Text(bytes) if bytes.as_ref() == [0xff]));

    let validated = validated_protocol.process(&mut validated_buf);
    assert!(matches!(validated, Err(Error::InvalidUtf8)));
}

fn server() -> Protocol {
    Protocol::new(Role::Server, 1 << 20, 1 << 20)
}

fn client() -> Protocol {
    Protocol::new(Role::Client, 1 << 20, 1 << 20)
}

fn samples() -> Vec<Message> {
    vec![
        Message::text("héllo"),
        Message::binary(vec![0u8, 255, 1]),
        Message::ping("p"),
        Message::pong("q"),
        Message::from("from str"),
        Message::from(vec![1u8, 2]),
        Message::Binary(Bytes::from(vec![7u8; 70000])),
    ]
}

#[test]
fn encoded_messages_are_received() {
    for from_client in [false, true] {
        let (mut sender, mut receiver) = if from_client {
            (client(), server())
        } else {
            (server(), client())
        };
        let mut buf = BytesMut::new();
        for message in samples() {
            sender.encode_message(&message, &mut buf).unwrap();
        }
        assert!(receiver.can_accept(buf.len()));
        let received = receiver.process(&mut buf).unwrap();
        assert_eq!(received.len(), samples().len());
        for (a, b) in received.iter().zip(samples()) {
            assert_eq!(a.as_bytes(), b.as_bytes());
            assert_eq!(a.is_text(), b.is_text());
            assert_eq!(a.is_control(), b.is_control());
        }
        assert!(buf.is_empty());
    }
}

#[test]
fn pieces_of_input_give_the_same_messages() {
    let mut sender = client();
    let mut wire = BytesMut::new();
    for message in samples() {
        sender.encode_message(&message, &mut wire).unwrap();
    }
    let mut receiver = server();
    let mut got = Vec::new();
    let mut buf = BytesMut::new();
    for chunk in wire.chunks(7) {
        buf.extend_from_slice(chunk);
        got.append(&mut receiver.process(&mut buf).unwrap());
    }
    assert_eq!(got.len(), samples().len());
    for (a, b) in got.iter().zip(samples()) {
        assert_eq!(a.as_bytes(), b.as_bytes());
    }
}

#[test]
fn closing_handshake_ends_both_sides() {
    let mut a = client();
    let mut b = server();
    let mut buf = BytesMut::new();
    let close = Message::Close(Some(sockudo_ws::error::CloseReason::new(1000, "bye")));
    a.encode_message(&close, &mut buf).unwrap();
    assert!(a.is_closing());
    let received = b.process(&mut buf).unwrap();
    assert!(matches!(&received[0], Message::Close(Some(r)) if r.code == 1000 && r.reason == "bye"));
    assert!(b.is_closing());
    let mut answer = BytesMut::new();
    b.encode_close_response(&mut answer);
    assert!(b.is_closed());
    let received = a.process(&mut answer).unwrap();
    assert!(received[0].is_close());
    assert!(a.is_closed());
}

#[test]
fn pongs_carry_the_payload_of_the_ping() {
    let mut a = server();
    let mut buf = BytesMut::new();
    a.encode_pong(b"ping data", &mut buf);
    assert_eq!(&buf[..2], &[0x8a, 9]);
    assert_eq!(&buf[2..], b"ping data");
}

fn error_of(bytes: &[u8]) -> Error {
    client().process(&mut BytesMut::from(bytes)).err().unwrap()
}

#[test]
fn violations_are_refused() {
    // Continuation without a message
    assert!(matches!(error_of(&[0x80, 0x00]), Error::Protocol(_)));
    // Another message within a fragmented one
    assert!(matches!(
        error_of(&[0x01, 0x00, 0x81, 0x00]),
        Error::Protocol(_)
    ));
    // Close with one byte, with a bad code and with a reason that is no text
    assert!(error_of(&[0x88, 0x01, 0x03]).is_fatal());
    assert!(matches!(
        error_of(&[0x88, 0x02, 0x03, 0xed]),
        Error::InvalidCloseCode(1005)
    ));
    assert!(matches!(
        error_of(&[0x88, 0x03, 0x03, 0xe8, 0xff]),
        Error::InvalidUtf8
    ));
    // Text that is not UTF-8 is refused before its last byte has come
    assert!(matches!(
        error_of(&[0x81, 0x05, 0xff]),
        Error::InvalidUtf8
    ));
    // Message too large
    let mut small = Protocol::new(Role::Client, 100, 5);
    let mut buf = BytesMut::from(&[0x02u8, 0x03, 1, 2, 3, 0x80, 0x03, 4, 5, 6][..]);
    assert!(matches!(small.process(&mut buf), Err(Error::MessageTooLarge)));
}

#[test]
fn messages_in_one_frame_are_held_to_the_message_limit() {
    for opcode in [0x81u8, 0x82] {
        let long = [opcode, 0x06, b'a', b'b', b'c', b'd', b'e', b'f'];
        let short = [opcode, 0x05, b'a', b'b', b'c', b'd', b'e'];
        let small = || Protocol::new(Role::Client, 100, 5);
        assert!(matches!(
            small().process(&mut BytesMut::from(&long[..])),
            Err(Error::MessageTooLarge)
        ));
        assert_eq!(
            small().process(&mut BytesMut::from(&short[..])).unwrap()[0].as_bytes(),
            b"abcde"
        );
        let mut raw = Vec::new();
        assert!(matches!(
            small().process_raw_into(&mut BytesMut::from(&long[..]), &mut raw),
            Err(Error::MessageTooLarge)
        ));
        small()
            .process_raw_into(&mut BytesMut::from(&short[..]), &mut raw)
            .unwrap();
        assert_eq!(raw.len(), 1);
        let packed = || CompressedProtocol::client(100, 5, DeflateConfig::default());
        assert!(matches!(
            packed().process(&mut BytesMut::from(&long[..])),
            Err(Error::MessageTooLarge)
        ));
        assert_eq!(
            packed().process(&mut BytesMut::from(&short[..])).unwrap()[0].as_bytes(),
            b"abcde"
        );
    }
}

#[test]
fn accepted_fragments_are_told() {
    let mut receiver = client();
    let mut buf = BytesMut::from(&[0x01u8, 0x01, b'a'][..]);
    let mut messages = Vec::new();
    let mut fragment = false;
    receiver
        .process_into_with_activity(&mut buf, &mut messages, &mut fragment)
        .unwrap();
    assert!(messages.is_empty());
    assert!(fragment);
}

#[test]
fn split_protocols_go_on() {
    let mut receiver = client();
    let mut buf = BytesMut::from(&[0x01u8, 0x01, b'a'][..]);
    assert!(receiver.process(&mut buf).unwrap().is_empty());
    let (mut reader, mut writer) = receiver.split(1 << 20, 1 << 20);
    buf.extend_from_slice(&[0x80, 0x01, b'b']);
    let messages = reader.process(&mut buf).unwrap();
    assert_eq!(messages[0].as_text(), Some("ab"));
    let mut out = BytesMut::new();
    writer
        .encode_message_masked(&Message::text("x"), Some([0, 0, 0, 0]), &mut out);
    assert_eq!(&out[..], &[0x81, 0x81, 0, 0, 0, 0, b'x']);
}

#[test]
fn compressed_messages_come_back() {
    let config = DeflateConfig::default();
    let mut a = CompressedProtocol::client(1 << 20, 1 << 20, config.clone());
    let mut b = CompressedProtocol::server(1 << 20, 1 << 20, config);
    let text = "compressible ".repeat(50);
    for _ in 0..3 {
        let mut buf = BytesMut::new();
        a.encode_message(&Message::text(text.as_str()), &mut buf)
            .unwrap();
        assert!(buf.len() < text.len());
        assert_eq!(buf[0], 0xc1);
        assert!(b.can_accept(buf.len()));
        let received = b.process(&mut buf).unwrap();
        assert_eq!(received[0].as_text(), Some(text.as_str()));
    }
    let mut buf = BytesMut::new();
    b.encode_pong(b"x", &mut buf);
    assert_eq!(&buf[..], &[0x8a, 0x01, b'x']);
    assert!(!a.is_closing());
    let (mut reader, mut writer) = b.split(1 << 20);
    let mut buf = BytesMut::new();
    a.encode_message(&Message::text(text.as_str()), &mut buf)
        .unwrap();
    assert_eq!(
        reader.process(&mut buf).unwrap()[0].as_text(),
        Some(text.as_str())
    );
    let mut buf = BytesMut::new();
    writer
        .encode_message(&Message::text(text.as_str()), &mut buf)
        .unwrap();
    assert_eq!(
        a.process(&mut buf).unwrap()[0].as_text(),
        Some(text.as_str())
    );
}

#[test]
fn compressed_halves_understand_each_other() {
    let config = DeflateConfig::default();
    let mut writer = CompressedWriterProtocol::server(&config);
    let mut reader = CompressedReaderProtocol::client(1 << 20, 1 << 20, &config);
    let text = "again and again ".repeat(20);
    let mut buf = BytesMut::new();
    writer
        .encode_message(&Message::text(text.as_str()), &mut buf)
        .unwrap();
    writer.encode_message(&Message::ping("p"), &mut buf).unwrap();
    let mut messages = Vec::new();
    reader.process_into(&mut buf, &mut messages).unwrap();
    assert_eq!(messages[0].as_text(), Some(text.as_str()));
    assert!(messages[1].is_ping());
}

#[test]
fn messages_convert() {
    assert_eq!(
        Message::from(String::from("s")).into_text().as_deref(),
        Some("s")
    );
    assert!(Message::from(Bytes::from_static(b"b")).is_binary());
    assert!(Message::from(&b"x"[..]).is_binary());
    assert_eq!(Message::pong("z").into_bytes().as_ref(), b"z");
    assert!(Message::pong("z").is_pong());
    assert_eq!(
        Message::text("t").text_bytes().map(|b| b.as_ref()),
        Some(&b"t"[..])
    );
    assert!(Message::Close(None).as_bytes().is_empty());
    let raw = RawMessage::Ping(Bytes::from_static(b"r"));
    assert_eq!(raw.opcode(), OpCode::Ping);
    assert_eq!(raw.clone().into_bytes().as_ref(), raw.as_bytes());
}
