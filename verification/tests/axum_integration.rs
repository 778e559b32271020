use sockudo_ws::axum_integration::{
    UpgradeHead, WebSocket, WebSocketReader, WebSocketUpgrade, WebSocketUpgradeRejection,
    WebSocketWriter,
};
use sockudo_ws::deflate::negotiate_server_deflate;
use sockudo_ws::handshake::generate_accept_key;
use sockudo_ws::protocol::Protocol;
use sockudo_ws::{
    Compression, Config, DeflateConfig, DeflateWindowBits, SplitReader, WriterDriver,
};

#[test]
fn test_accept_key() {
    // RFC 6455 test vector
    let key = "dGhlIHNhbXBsZSBub25jZQ==";
    let accept = generate_accept_key(key);
    assert_eq!(accept, "s3pPLMBiTxaQ9kYGzzhZRbK+xOo=");
}

fn takes_split_reader(_: SplitReader<Protocol>) {}

fn takes_split_writer(_: WriterDriver<Protocol>) {}

#[test]
fn test_websocket_split_compiles() {
    let _reader: fn(SplitReader<Protocol>) = takes_split_reader;
    let _writer: fn(WriterDriver<Protocol>) = takes_split_writer;
}

#[test]
fn test_deflate_negotiation_with_client_offer() {
    // Negotiate the client offer and verify both codec and response parameters.
    let client_extension = "permessage-deflate; client_max_window_bits";
    let server_config = DeflateConfig::default();
    let negotiated = negotiate_server_deflate(client_extension, &server_config).unwrap();

    assert_eq!(negotiated.config, server_config);
    assert_eq!(negotiated.to_response_header(), "permessage-deflate");
}

#[test]
fn test_deflate_negotiation_with_parameters() {
    // Negotiate an offer with specific context and window constraints.
    let client_extension =
        "permessage-deflate; server_no_context_takeover; client_max_window_bits=10";
    let config = negotiate_server_deflate(client_extension, &DeflateConfig::default()).unwrap();

    // Verify the negotiated codec values and generated response header.
    assert!(config.config.server_no_context_takeover);
    assert_eq!(config.config.client_max_window_bits, DeflateWindowBits::Bits10);
    assert_eq!(
        config.to_response_header(),
        "permessage-deflate; server_no_context_takeover; client_max_window_bits=10"
    );
}

#[test]
fn test_deflate_negotiation_without_client_offer() {
    // With no client offer, an upgrade does not negotiate compression.
    let no_extension: Option<&str> = None;
    let server_config = DeflateConfig::default();

    let negotiated =
        no_extension.and_then(|offers| negotiate_server_deflate(offers, &server_config));

    assert!(negotiated.is_none());
}

#[test]
fn test_deflate_negotiation_with_non_deflate_extension() {
    // Extensions other than permessage-deflate are ignored by this negotiator.
    let other_extension = "some-other-extension";

    let negotiated = negotiate_server_deflate(other_extension, &DeflateConfig::default());

    assert!(negotiated.is_none());
}

#[test]
fn test_deflate_response_header_generation() {
    // Test default config response header
    let config = DeflateConfig::default();
    let header = config.to_response_header();
    assert_eq!(header, "permessage-deflate");

    // Test config with server_no_context_takeover
    let config = DeflateConfig {
        server_no_context_takeover: true,
        ..Default::default()
    };
    let header = config.to_response_header();
    assert!(header.contains("permessage-deflate"));
    assert!(header.contains("server_no_context_takeover"));

    // Test config with custom window bits
    let config = DeflateConfig {
        server_max_window_bits: DeflateWindowBits::Bits12,
        client_max_window_bits: DeflateWindowBits::Bits10,
        ..Default::default()
    };
    let header = config.to_response_header();
    assert!(header.contains("server_max_window_bits=12"));
    assert!(header.contains("client_max_window_bits=10"));
}

#[test]
fn test_deflate_config_enabled_vs_disabled() {
    // Test with deflate enabled
    let config = Config {
        deflate: Some(DeflateConfig::default()),
        ..Default::default()
    };

    assert!(config.deflate.is_some());

    // Test with deflate disabled
    let config = Config::default();
    // By default, deflate should be None
    assert!(config.deflate.is_none());
}

#[test]
fn test_deflate_negotiation_logic_structure() {
    let _extensions: Option<String> = Some("permessage-deflate".to_string());

    let test_config = Config {
        deflate: Some(DeflateConfig::default()),
        ..Default::default()
    };
    assert!(test_config.deflate.is_some());
}

#[test]
fn test_deflate_invalid_parameters() {
    // Reject window values that are too low, backend-unsupported, or too high,
    // as well as valueless, duplicate, and unknown parameters.
    for offer in [
        "permessage-deflate; server_max_window_bits=7",
        "permessage-deflate; server_max_window_bits=8",
        "permessage-deflate; server_max_window_bits=16",
        "permessage-deflate; server_max_window_bits",
        "permessage-deflate; server_max_window_bits=12; server_max_window_bits=11",
        "permessage-deflate; invalid_parameter",
    ] {
        let negotiated = negotiate_server_deflate(offer, &DeflateConfig::default());
        assert!(negotiated.is_none(), "unexpectedly accepted {offer}");
    }
}

#[test]
fn test_deflate_full_negotiation_flow() {
    // Exercise parsing, validation, codec configuration, and response generation together.
    let client_offer = "permessage-deflate; client_no_context_takeover; client_max_window_bits=12";
    let negotiated = negotiate_server_deflate(client_offer, &DeflateConfig::default()).unwrap();

    assert!(!negotiated.config.server_no_context_takeover);
    assert!(negotiated.config.client_no_context_takeover);
    assert_eq!(
        negotiated.config.client_max_window_bits,
        DeflateWindowBits::Bits12
    );
    assert_eq!(
        negotiated.to_response_header(),
        "permessage-deflate; client_no_context_takeover; client_max_window_bits=12"
    );
}

#[test]
fn test_compression_mode_to_deflate_config() {
    // Test Disabled mode
    assert!(Compression::Disabled.to_deflate_config().is_none());

    // Test Dedicated mode
    let config = Compression::Dedicated.to_deflate_config();
    assert!(config.is_some());
    let config = config.unwrap();
    assert_eq!(config.server_max_window_bits, DeflateWindowBits::Bits15);
    assert!(!config.server_no_context_takeover); // Context takeover enabled

    // Test Shared mode
    let config = Compression::Shared.to_deflate_config();
    assert!(config.is_some());
    let config = config.unwrap();
    assert_eq!(config.server_max_window_bits, DeflateWindowBits::Bits15);

    // Test Window1KB mode
    let config = Compression::Window1KB.to_deflate_config();
    assert!(config.is_some());
    let config = config.unwrap();
    assert_eq!(config.server_max_window_bits, DeflateWindowBits::Bits10);
    assert!(config.server_no_context_takeover);

    // Test Window2KB mode
    let config = Compression::Window2KB.to_deflate_config();
    assert!(config.is_some());
    let config = config.unwrap();
    assert_eq!(config.server_max_window_bits, DeflateWindowBits::Bits11);
    assert!(config.server_no_context_takeover);

    // Test Window4KB mode
    let config = Compression::Window4KB.to_deflate_config();
    assert!(config.is_some());
    let config = config.unwrap();
    assert_eq!(config.server_max_window_bits, DeflateWindowBits::Bits12);

    // Test Window8KB mode
    let config = Compression::Window8KB.to_deflate_config();
    assert!(config.is_some());
    let config = config.unwrap();
    assert_eq!(config.server_max_window_bits, DeflateWindowBits::Bits13);

    // Test Window16KB mode
    let config = Compression::Window16KB.to_deflate_config();
    assert!(config.is_some());
    let config = config.unwrap();
    assert_eq!(config.server_max_window_bits, DeflateWindowBits::Bits14);

    // Test Window32KB mode (max per RFC 7692)
    let config = Compression::Window32KB.to_deflate_config();
    assert!(config.is_some());
    let config = config.unwrap();
    assert_eq!(config.server_max_window_bits, DeflateWindowBits::Bits15);
}

#[test]
fn test_config_compression_mode_negotiation() {
    // Test that compression mode generates proper response headers
    let client_offer = "permessage-deflate; client_max_window_bits";

    for mode in [
        Compression::Dedicated,
        Compression::Shared,
        Compression::Window4KB,
        Compression::Window8KB,
        Compression::Window16KB,
        Compression::Window32KB,
    ] {
        let deflate_config = mode.to_deflate_config().unwrap();
        // Negotiate and generate a response for each supported compression policy.
        let negotiated = negotiate_server_deflate(client_offer, &deflate_config).unwrap();

        assert_eq!(negotiated.config, deflate_config);
        assert!(
            negotiated
                .to_response_header()
                .starts_with("permessage-deflate")
        );
    }
}

#[test]
fn test_compression_priority_deflate_over_mode() {
    // When both deflate config and compression mode are set,
    // deflate config should take priority
    let config = Config {
        compression: Compression::Window4KB,
        deflate: Some(DeflateConfig {
            server_max_window_bits: DeflateWindowBits::Bits15,
            client_max_window_bits: DeflateWindowBits::Bits15,
            server_no_context_takeover: false,
            client_no_context_takeover: false,
            compression_level: 9,
            compression_threshold: 16,
        }),
        ..Default::default()
    };

    let deflate_config = config
        .deflate
        .clone()
        .or_else(|| config.compression.to_deflate_config());

    assert!(deflate_config.is_some());
    let deflate_config = deflate_config.unwrap();

    // Should use explicit deflate config (15 bits), not Window4KB (12 bits)
    assert_eq!(
        deflate_config.server_max_window_bits,
        DeflateWindowBits::Bits15
    );
    assert_eq!(deflate_config.compression_level, 9);
}

fn field(name: &str, value: &str) -> (String, Vec<u8>) {
    (name.to_string(), value.as_bytes().to_vec())
}

fn upgrade_head() -> UpgradeHead {
    UpgradeHead {
        method: "GET".to_string(),
        headers: vec![
            field("upgrade", "WebSocket"),
            field("connection", "keep-alive, Upgrade"),
            field("sec-websocket-key", "dGhlIHNhbXBsZSBub25jZQ=="),
            field("sec-websocket-version", "13"),
        ],
        can_upgrade: true,
    }
}

fn without(name: &str) -> UpgradeHead {
    let mut head = upgrade_head();
    head.headers.retain(|(n, _)| n != name);
    head
}

fn with(name: &str, value: &str) -> UpgradeHead {
    let mut head = without(name);
    head.headers.push(field(name, value));
    head
}

fn rejection(head: &UpgradeHead) -> WebSocketUpgradeRejection {
    WebSocketUpgrade::from_request(head).err().unwrap()
}

#[test]
fn upgrade_is_answered() {
    let mut head = with("sec-websocket-protocol", " chat , superchat");
    head.headers
        .push(field("sec-websocket-extensions", "permessage-deflate"));
    let upgrade = WebSocketUpgrade::from_request(&head).unwrap();
    let response = upgrade.on_upgrade();
    let headers = response.headers();
    assert_eq!(
        headers,
        vec![
            ("upgrade".to_string(), "websocket".to_string()),
            ("connection".to_string(), "Upgrade".to_string()),
            (
                "sec-websocket-accept".to_string(),
                "s3pPLMBiTxaQ9kYGzzhZRbK+xOo=".to_string()
            ),
            ("sec-websocket-protocol".to_string(), "chat".to_string()),
        ]
    );
    assert!(response.can_open());
    assert!(matches!(response.open(), WebSocket::Plain(_)));
}

#[test]
fn upgrade_compresses_where_configured_and_offered() {
    let head = with("sec-websocket-extensions", "permessage-deflate");
    let upgrade = WebSocketUpgrade::from_request(&head)
        .unwrap()
        .config(Config::builder().enable_deflate().build())
        .max_message_size(1000)
        .max_frame_size(900)
        .write_buffer_size(800);
    let response = upgrade.on_upgrade();
    assert_eq!(
        response.headers().last().unwrap(),
        &(
            "sec-websocket-extensions".to_string(),
            "permessage-deflate".to_string()
        )
    );
    let socket = response.open();
    assert!(!socket.is_closed());
    assert!(matches!(socket, WebSocket::Compressed(_)));
    let (reader, writer, shared) = socket.split();
    assert!(matches!(reader, WebSocketReader::Compressed(_)));
    assert!(matches!(writer, WebSocketWriter::Compressed(_)));
    assert!(!reader.is_closed(&shared));
    assert!(!writer.is_closed(&shared));

    // Not offered: not compressed.
    let upgrade = WebSocketUpgrade::from_request(&upgrade_head())
        .unwrap()
        .config(Config::builder().enable_deflate().build());
    let response = upgrade.on_upgrade();
    assert_eq!(response.headers().len(), 3);
    let socket = response.open();
    let (reader, writer, _) = socket.split();
    assert!(matches!(reader, WebSocketReader::Plain(_)));
    assert!(matches!(writer, WebSocketWriter::Plain(_)));
}

#[test]
fn explicit_compression_overrides_the_mode() {
    let head = with("sec-websocket-extensions", "permessage-deflate");
    for mode in [Compression::Disabled, Compression::Window4KB] {
        let config = Config {
            compression: mode,
            deflate: Some(DeflateConfig {
                server_no_context_takeover: true,
                ..Default::default()
            }),
            ..Default::default()
        };
        let response = WebSocketUpgrade::from_request(&head)
            .unwrap()
            .config(config)
            .on_upgrade();
        assert_eq!(
            response.headers().last().unwrap().1,
            "permessage-deflate; server_no_context_takeover"
        );
    }
}

#[test]
fn upgrade_rejections_in_order() {
    let mut head = upgrade_head();
    head.method = "POST".to_string();
    head.headers.clear();
    assert_eq!(rejection(&head), WebSocketUpgradeRejection::MethodNotGet);
    assert_eq!(rejection(&head).status(), 405);
    assert_eq!(rejection(&head).message(), "Method must be GET");

    let cases = [
        (
            without("upgrade"),
            WebSocketUpgradeRejection::MissingUpgradeHeader,
            "Missing Upgrade header",
        ),
        (
            with("upgrade", "h2c"),
            WebSocketUpgradeRejection::InvalidUpgradeHeader,
            "Invalid Upgrade header",
        ),
        (
            without("connection"),
            WebSocketUpgradeRejection::MissingConnectionHeader,
            "Missing Connection header",
        ),
        (
            with("connection", "close"),
            WebSocketUpgradeRejection::InvalidConnectionHeader,
            "Invalid Connection header",
        ),
        (
            without("sec-websocket-key"),
            WebSocketUpgradeRejection::MissingSecWebSocketKey,
            "Missing Sec-WebSocket-Key",
        ),
        (
            without("sec-websocket-version"),
            WebSocketUpgradeRejection::MissingSecWebSocketVersion,
            "Missing Sec-WebSocket-Version",
        ),
        (
            with("sec-websocket-version", "8"),
            WebSocketUpgradeRejection::UnsupportedVersion,
            "Unsupported WebSocket version",
        ),
    ];
    for (head, expected, message) in cases {
        assert_eq!(rejection(&head), expected);
        assert_eq!(rejection(&head).status(), 400);
        assert_eq!(rejection(&head).message(), message);
    }

    let mut head = upgrade_head();
    head.can_upgrade = false;
    assert_eq!(rejection(&head), WebSocketUpgradeRejection::MissingUpgrade);
    assert_eq!(
        rejection(&head).message(),
        "Missing upgrade in request extensions"
    );

    // A header that is not text counts as missing.
    let mut head = without("sec-websocket-key");
    head.headers
        .push(("sec-websocket-key".to_string(), vec![0xff]));
    assert_eq!(
        rejection(&head),
        WebSocketUpgradeRejection::MissingSecWebSocketKey
    );
}

#[test]
fn connection_that_cannot_be_opened_is_known_before() {
    let upgrade = WebSocketUpgrade::from_request(&upgrade_head())
        .unwrap()
        .write_buffer_size(usize::MAX);
    assert!(!upgrade.on_upgrade().can_open());
}
