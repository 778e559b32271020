use sockudo_ws::error::{CloseReason, ErrorKind, IoError, IoErrorKind};
use sockudo_ws::mask::{generate_mask, mask_from_u32};
use sockudo_ws::utf8::{validate_utf8, Utf8Stream};
use sockudo_ws::{Compression, Config, ConfigBuilder, DeflateConfig, Error};

#[test]
fn default_configuration() {
    let config = Config::default();
    assert_eq!(config.max_message_size, 64 * 1024 * 1024);
    assert_eq!(config.max_frame_size, 16 * 1024 * 1024);
    assert_eq!(config.write_buffer_size, 16 * 1024);
    assert_eq!(config.compression, Compression::Disabled);
    assert_eq!(config.idle_timeout, 120);
    assert_eq!(config.max_backpressure, 1024 * 1024);
    assert!(config.auto_ping);
    assert_eq!(config.ping_interval, 30);
    assert_eq!(config.pong_timeout, 10);
    assert_eq!(config.pong_timeout_close_code, 1001);
    assert_eq!(
        config.pong_timeout_close_reason,
        "Pong reply not received in time"
    );
    assert_eq!(config.close_timeout, 5);
    assert!(config.write_coalescing);
    assert!(config.deflate.is_none());
    assert_eq!(ConfigBuilder::default().build().idle_timeout, 120);
}

#[test]
fn builder_sets_every_field() {
    let config = Config::builder()
        .compression(Compression::Shared)
        .max_payload_length(1)
        .max_frame_size(2)
        .idle_timeout(3)
        .max_backpressure(4)
        .write_buffer_size(5)
        .auto_ping(false)
        .ping_interval(6)
        .pong_timeout(7)
        .close_timeout(8)
        .write_coalescing(false)
        .deflate_config(DeflateConfig::low_memory())
        .pong_timeout_close(4000, "gone")
        .http2_stream_window_size(9)
        .http2_connection_window_size(10)
        .http2_max_streams(11)
        .http2_enable_connect_protocol(false)
        .http3_idle_timeout(12)
        .http3_stream_window_size(13)
        .http3_enable_0rtt(true)
        .http3_enable_connect_protocol(false)
        .http3_max_udp_payload_size(1400)
        .io_uring_buffers(14, 15)
        .io_uring_sqpoll(true)
        .io_uring_sq_entries(16)
        .clone()
        .build();
    assert_eq!(config.compression, Compression::Shared);
    assert_eq!(config.max_message_size, 1);
    assert_eq!(config.max_frame_size, 2);
    assert_eq!(config.idle_timeout, 3);
    assert_eq!(config.max_backpressure, 4);
    assert_eq!(config.write_buffer_size, 5);
    assert!(!config.auto_ping);
    assert_eq!(config.ping_interval, 6);
    assert_eq!(config.pong_timeout, 7);
    assert_eq!(config.close_timeout, 8);
    assert!(!config.write_coalescing);
    assert_eq!(config.deflate, Some(DeflateConfig::low_memory()));
    assert_eq!(config.pong_timeout_close_code, 4000);
    assert_eq!(config.pong_timeout_close_reason, "gone");
    assert_eq!(config.http2.initial_stream_window_size, 9);
    assert_eq!(config.http2.initial_connection_window_size, 10);
    assert_eq!(config.http2.max_concurrent_streams, 11);
    assert!(!config.http2.enable_connect_protocol);
    assert_eq!(config.http3.max_idle_timeout_ms, 12);
    assert_eq!(config.http3.initial_stream_window_size, 13);
    assert!(config.http3.enable_0rtt);
    assert!(!config.http3.enable_connect_protocol);
    assert_eq!(config.http3.max_udp_payload_size, 1400);
    assert_eq!(config.io_uring.registered_buffer_count, 14);
    assert_eq!(config.io_uring.registered_buffer_size, 15);
    assert!(config.io_uring.sqpoll);
    assert_eq!(config.io_uring.sq_entries, 16);
    assert!(Config::builder().enable_deflate().build().deflate.is_some());
    let _ = Config::uws_defaults();
}

#[test]
fn errors_have_kinds_and_texts() {
    assert_eq!(Error::HeartbeatTimeout.kind(), ErrorKind::Connection);
    assert!(Error::IdleTimeout.is_timeout());
    assert!(Error::WouldBlock.is_recoverable());
    assert!(!Error::WouldBlock.is_fatal());
    assert!(Error::ConnectionReset.is_connection_error());
    assert!(Error::Protocol("x").is_protocol_error());
    assert!(Error::HandshakeFailed("x").message().contains("x"));
    assert_ne!(
        Error::InvalidUtf8.metric_name(),
        Error::ConnectionClosed.metric_name()
    );
    assert_eq!(Error::InvalidHttp("x").suggested_http_status(), 400);
}

#[test]
fn io_errors_convert_both_ways() {
    let io = |kind| IoError {
        kind,
        message: "m".to_string(),
    };
    assert!(matches!(
        Error::from(io(IoErrorKind::WouldBlock)),
        Error::WouldBlock
    ));
    assert!(matches!(
        Error::from(io(IoErrorKind::ConnectionReset)),
        Error::ConnectionReset
    ));
    assert!(matches!(
        Error::from(io(IoErrorKind::Other)),
        Error::Io(e) if e.message == "m"
    ));
    let back = IoError::from_error(Error::WouldBlock);
    assert_eq!(back.kind, IoErrorKind::WouldBlock);
    let back = IoError::from_error(Error::Io(io(IoErrorKind::TimedOut)));
    assert_eq!(back.clone().kind, IoErrorKind::TimedOut);
    assert!(matches!(
        Error::from_http2(true, Some(io(IoErrorKind::ConnectionReset)), "t".to_string()),
        Error::Io(e) if e.kind == IoErrorKind::ConnectionReset
    ));
    assert!(matches!(
        Error::from_http2(false, None, "t".to_string()),
        Error::Http2(t) if t == "t"
    ));
}

#[test]
fn close_codes_are_checked() {
    for code in [1000, 1001, 1003, 1007, 1011, 3000, 4999] {
        assert!(CloseReason::is_valid_code(code), "{code}");
    }
    for code in [0, 999, 1004, 1005, 1006, 1015, 2999, 5000] {
        assert!(!CloseReason::is_valid_code(code), "{code}");
    }
    let reason = CloseReason::new(CloseReason::GOING_AWAY, "bye").clone();
    assert_eq!(reason.code, 1001);
    assert_eq!(reason.reason, "bye");
}

#[test]
fn utf8_is_validated_whole_and_in_pieces() {
    let samples: [(&[u8], bool); 8] = [
        (b"plain", true),
        ("héllo €𝄞".as_bytes(), true),
        (&[0xff], false),
        (&[0xc0, 0x80], false),
        (&[0xed, 0xa0, 0x80], false),
        (&[0xf4, 0x90, 0x80, 0x80], false),
        (&[0xe2, 0x82], false),
        (b"", true),
    ];
    for (bytes, valid) in samples {
        assert_eq!(validate_utf8(bytes), valid, "{bytes:?}");
        let mut stream = Utf8Stream::new();
        let mut accepted = true;
        for b in bytes {
            accepted = accepted && stream.push(&[*b]);
        }
        assert_eq!(accepted && stream.finish(), valid, "{bytes:?}");
        stream.reset();
        assert!(stream.finish());
    }
}

#[test]
fn masks_are_numbers_in_network_order() {
    assert_eq!(mask_from_u32(0x0102_0304), [1, 2, 3, 4]);
    let different = (0..50).any(|_| generate_mask() != generate_mask());
    assert!(different);
}
