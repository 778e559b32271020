use base64::Engine;
use sockudo_ws::handshake::{
    answer_parsed, build_request, build_request_with_headers, build_response, client_step,
    generate_accept_key, generate_key, is_valid_websocket_key, key_from_bytes, parse_request,
    parse_response,
    resolve_request_target, select_default_subprotocol, select_supported_subprotocol, server_step,
    validate_accept_key, validate_selected_protocol, validate_supported_protocols, UriParts,
    MAX_HEADER_SIZE,
};
use sockudo_ws::Error;

#[test]
fn generated_key_decodes_to_sixteen_bytes() {
    let key = generate_key();
    assert_eq!(
        base64::engine::general_purpose::STANDARD
            .decode(key)
            .unwrap()
            .len(),
        16
    );
}

#[test]
fn test_generate_accept_key() {
    // Test vector from RFC 6455
    let key = "dGhlIHNhbXBsZSBub25jZQ==";
    let accept = generate_accept_key(key);
    assert_eq!(accept, "s3pPLMBiTxaQ9kYGzzhZRbK+xOo=");
}

#[test]
fn test_parse_request() {
    let request = b"GET /chat HTTP/1.1\r\n\
        Host: server.example.com\r\n\
        Upgrade: websocket\r\n\
        Connection: Upgrade\r\n\
        Sec-WebSocket-Key: dGhlIHNhbXBsZSBub25jZQ==\r\n\
        Sec-WebSocket-Version: 13\r\n\
        \r\n";

    let (req, len) = parse_request(request).unwrap().unwrap();
    assert_eq!(req.path, "/chat");
    assert_eq!(req.key, "dGhlIHNhbXBsZSBub25jZQ==");
    assert_eq!(req.version, "13");
    assert_eq!(len, request.len());
}

#[test]
fn test_parse_request_partial() {
    let request = b"GET /chat HTTP/1.1\r\n\
        Host: server.example.com\r\n";

    assert!(parse_request(request).unwrap().is_none());
}

#[test]
fn request_header_limit_excludes_upgraded_frame_bytes() {
    let mut input = b"GET /chat HTTP/1.1\r\n\
        Host: server.example.com\r\n\
        Upgrade: websocket\r\n\
        Connection: Upgrade\r\n\
        Sec-WebSocket-Key: dGhlIHNhbXBsZSBub25jZQ==\r\n\
        Sec-WebSocket-Version: 13\r\n\
        \r\n"
        .to_vec();
    let header_len = input.len();
    input.resize(MAX_HEADER_SIZE + 1, 0);

    let (_, consumed) = parse_request(&input).unwrap().unwrap();

    assert_eq!(consumed, header_len);
}

#[test]
fn response_header_limit_excludes_upgraded_frame_bytes() {
    let mut input = b"HTTP/1.1 101 Switching Protocols\r\n\
        Upgrade: websocket\r\n\
        Connection: Upgrade\r\n\
        Sec-WebSocket-Accept: s3pPLMBiTxaQ9kYGzzhZRbK+xOo=\r\n\
        \r\n"
        .to_vec();
    let header_len = input.len();
    input.resize(MAX_HEADER_SIZE + 1, 0);

    let (_, consumed) = parse_response(&input).unwrap().unwrap();

    assert_eq!(consumed, header_len);
}

#[test]
fn request_header_limit_accepts_exactly_eight_kib() {
    let mut input = build_request(
        "server.example.com",
        "/chat",
        "dGhlIHNhbXBsZSBub25jZQ==",
        None,
        None,
    )
    .to_vec();
    input.truncate(input.len() - 2);
    input.extend_from_slice(b"X-Pad: ");
    input.resize(MAX_HEADER_SIZE - 4, b'a');
    input.extend_from_slice(b"\r\n\r\n");
    assert_eq!(input.len(), MAX_HEADER_SIZE);

    assert_eq!(parse_request(&input).unwrap().unwrap().1, MAX_HEADER_SIZE);
    input.insert(MAX_HEADER_SIZE - 4, b'a');
    assert!(matches!(
        parse_request(&input),
        Err(Error::InvalidHttp("request too large"))
    ));
}

#[test]
fn response_header_limit_accepts_exactly_eight_kib() {
    let mut input = build_response("s3pPLMBiTxaQ9kYGzzhZRbK+xOo=", None, None).to_vec();
    input.truncate(input.len() - 2);
    input.extend_from_slice(b"X-Pad: ");
    input.resize(MAX_HEADER_SIZE - 4, b'a');
    input.extend_from_slice(b"\r\n\r\n");
    assert_eq!(input.len(), MAX_HEADER_SIZE);

    assert_eq!(parse_response(&input).unwrap().unwrap().1, MAX_HEADER_SIZE);
    input.insert(MAX_HEADER_SIZE - 4, b'a');
    assert!(matches!(
        parse_response(&input),
        Err(Error::InvalidHttp("response too large"))
    ));
}

#[test]
fn partial_request_still_observes_the_header_limit() {
    let mut input = b"GET /chat HTTP/1.1\r\nX-Pad: ".to_vec();
    input.resize(MAX_HEADER_SIZE, b'a');
    assert!(parse_request(&input).unwrap().is_none());

    input.push(b'a');
    assert!(matches!(
        parse_request(&input),
        Err(Error::InvalidHttp("request too large"))
    ));
}

#[test]
fn oversized_request_stops_parsing_at_the_header_limit() {
    let mut input = b"GET /chat HTTP/1.1\r\nX-Pad: ".to_vec();
    input.resize(MAX_HEADER_SIZE + 1, b'a');
    input.push(0); // Invalid HTTP syntax beyond the size boundary must not be parsed.

    assert!(matches!(
        parse_request(&input),
        Err(Error::InvalidHttp("request too large"))
    ));
}

#[test]
fn partial_response_still_observes_the_header_limit() {
    let mut input = b"HTTP/1.1 101 Switching Protocols\r\nX-Pad: ".to_vec();
    input.resize(MAX_HEADER_SIZE, b'a');
    assert!(parse_response(&input).unwrap().is_none());

    input.push(b'a');
    assert!(matches!(
        parse_response(&input),
        Err(Error::InvalidHttp("response too large"))
    ));
}

#[test]
fn oversized_response_stops_parsing_at_the_header_limit() {
    let mut input = b"HTTP/1.1 101 Switching Protocols\r\nX-Pad: ".to_vec();
    input.resize(MAX_HEADER_SIZE + 1, b'a');
    input.push(0); // Invalid HTTP syntax beyond the size boundary must not be parsed.

    assert!(matches!(
        parse_response(&input),
        Err(Error::InvalidHttp("response too large"))
    ));
}

#[test]
fn handshake_test_build_response() {
    let accept = "s3pPLMBiTxaQ9kYGzzhZRbK+xOo=";
    let response = build_response(accept, None, None);

    let response_str = std::str::from_utf8(&response).unwrap();
    assert!(response_str.contains("101 Switching Protocols"));
    assert!(response_str.contains("Upgrade: websocket"));
    assert!(response_str.contains("Sec-WebSocket-Accept: s3pPLMBiTxaQ9kYGzzhZRbK+xOo="));
}

#[test]
fn checked_request_builder_rejects_injected_lines() {
    let key = "dGhlIHNhbXBsZSBub25jZQ==";
    let injected = "safe\r\nX-Injected: true";

    for result in [
        build_request_with_headers(injected, "/ws", key, None, None, None),
        build_request_with_headers(
            "example.com",
            "/ws\r\nX-Injected: true",
            key,
            None,
            None,
            None,
        ),
        build_request_with_headers("example.com", "/ws", injected, None, None, None),
        build_request_with_headers("example.com", "/ws", key, Some(injected), None, None),
        build_request_with_headers("example.com", "/ws", key, None, Some(injected), None),
    ] {
        assert!(matches!(result, Err(Error::InvalidHttp(_))));
    }
}

#[test]
fn checked_request_builder_rejects_whitespace_in_request_target() {
    let result = build_request_with_headers(
        "example.com",
        "/ws bad",
        "dGhlIHNhbXBsZSBub25jZQ==",
        None,
        None,
        None,
    );

    assert!(matches!(
        result,
        Err(Error::InvalidHttp("invalid request target"))
    ));
}

#[test]
fn test_validate_accept_key() {
    let key = "dGhlIHNhbXBsZSBub25jZQ==";
    let accept = "s3pPLMBiTxaQ9kYGzzhZRbK+xOo=";
    assert!(validate_accept_key(key, accept));
    assert!(!validate_accept_key(key, "invalid"));
}

#[test]
fn response_rejects_duplicate_subprotocol_headers() {
    let response = b"HTTP/1.1 101 Switching Protocols\r\n\
        Sec-WebSocket-Protocol: chat\r\n\
        Sec-WebSocket-Protocol: superchat\r\n\
        \r\n";

    assert!(matches!(
        parse_response(response),
        Err(Error::HandshakeFailed("duplicate Sec-WebSocket-Protocol"))
    ));
}

#[test]
fn selected_subprotocol_must_exactly_match_one_offer() {
    let cases = [
        (Some("chat,\tsuperchat"), Some("superchat"), true),
        (Some("chat"), None, true),
        (None, Some("chat"), false),
        (Some("chat"), Some("other"), false),
        (Some("chat"), Some("CHAT"), false),
    ];

    for (offered, selected, valid) in cases {
        assert_eq!(
            validate_selected_protocol(offered, selected).is_ok(),
            valid,
            "offered={offered:?}, selected={selected:?}"
        );
    }
}

const KEY: &str = "dGhlIHNhbXBsZSBub25jZQ==";

#[test]
fn server_and_client_agree() {
    let extra = vec![("Authorization".to_string(), "Bearer token".to_string())];
    let request = build_request_with_headers(
        "example.com",
        "/chat",
        KEY,
        Some("chat, superchat"),
        None,
        Some(&extra),
    )
    .unwrap();
    let text = std::str::from_utf8(&request).unwrap();
    assert!(text.contains("Authorization: Bearer token\r\n"));

    // The server needs all of the request, and keeps what follows it.
    assert!(server_step(1, &request[..20], None, None).unwrap().is_none());
    let mut with_frame = request.to_vec();
    with_frame.extend_from_slice(&[0x81, 0x80, 0, 0, 0, 0]);
    let answer = server_step(1, &with_frame, None, None).unwrap().unwrap();
    assert_eq!(answer.result.path, "/chat");
    assert_eq!(answer.result.protocol.as_deref(), Some("chat"));
    assert_eq!(
        answer.result.leftover.as_deref(),
        Some(&[0x81u8, 0x80, 0, 0, 0, 0][..])
    );

    let result = client_step(1, &answer.response, KEY, "/chat", Some("chat, superchat"))
        .unwrap()
        .unwrap();
    assert_eq!(result.path, "/chat");
    assert_eq!(result.protocol.as_deref(), Some("chat"));
    assert!(result.leftover.is_none());
}

#[test]
fn server_picks_what_it_supports() {
    let request = build_request("example.com", "/", KEY, Some("a, b, c"), None);
    let supported = vec!["c".to_string(), "b".to_string()];
    let answer = server_step(1, &request, Some(&supported), Some("permessage-deflate"))
        .unwrap()
        .unwrap();
    assert_eq!(
        select_supported_subprotocol(Some("a, b, c"), &supported),
        answer.result.protocol.as_deref()
    );
    let text = std::str::from_utf8(&answer.response).unwrap();
    assert!(text.contains("Sec-WebSocket-Extensions: permessage-deflate\r\n"));
    let (parsed, consumed) = parse_request(&request).unwrap().unwrap();
    let again = answer_parsed(&parsed, consumed, &request, Some(&supported), None);
    assert_eq!(again.result.protocol, answer.result.protocol);
}

#[test]
fn client_refuses_wrong_answers() {
    let wrong_key = build_response("AAAAAAAAAAAAAAAAAAAAAAAAAAA=", None, None);
    assert!(matches!(
        client_step(1, &wrong_key, KEY, "/", None),
        Err(Error::HandshakeFailed(_))
    ));
    let unoffered = build_response(&generate_accept_key(KEY), Some("unoffered"), None);
    assert!(matches!(
        client_step(1, &unoffered, KEY, "/ws", Some("chat")),
        Err(Error::HandshakeFailed("server returned an unoffered subprotocol"))
    ));
    assert!(client_step(0, b"", KEY, "/", None).is_err());
    assert!(server_step(0, b"", None, None).is_err());
    assert!(matches!(
        parse_response(b"\0\0\0\0"),
        Err(Error::InvalidHttp("failed to parse HTTP response"))
    ));
    assert!(matches!(
        parse_request(b"\0\0\0\0"),
        Err(Error::InvalidHttp(_))
    ));
}

#[test]
fn request_fields_are_checked() {
    let request = |lines: &str| format!("GET /chat HTTP/1.1\r\n{lines}\r\n");
    let good = "Host: h\r\nUpgrade: websocket\r\nConnection: Upgrade\r\nSec-WebSocket-Version: 13\r\nSec-WebSocket-Key: dGhlIHNhbXBsZSBub25jZQ==\r\n";
    assert!(parse_request(request(good).as_bytes()).unwrap().is_some());
    for bad in [
        good.replace("Host: h\r\n", ""),
        good.replace("websocket", "h2c"),
        good.replace("Connection: Upgrade", "Connection: close"),
        good.replace("13", "12"),
        good.replace("dGhlIHNhbXBsZSBub25jZQ==", "short"),
    ] {
        assert!(parse_request(request(&bad).as_bytes()).is_err(), "{bad}");
    }
    assert!(is_valid_websocket_key(KEY));
    assert!(!is_valid_websocket_key("dGhlIHNhbXBsZSBub25jZQ="));
}

#[test]
fn absolute_targets_name_the_host() {
    let request = format!(
        "GET http://other.example:8080/x?y HTTP/1.1\r\nHost: h\r\nUpgrade: websocket\r\nConnection: Upgrade\r\nSec-WebSocket-Version: 13\r\nSec-WebSocket-Key: {KEY}\r\n\r\n"
    );
    let (req, _) = parse_request(request.as_bytes()).unwrap().unwrap();
    assert_eq!(req.path, "/x?y");
    assert_eq!(req.host, Some("other.example:8080"));

    let uri = Some(UriParts {
        scheme: Some("http".to_string()),
        authority: Some(("a:1".to_string(), "a".to_string())),
        path_and_query: Some("/".to_string()),
    });
    let (path, host) = resolve_request_target("http://a:1", "h", &uri).unwrap();
    assert_eq!(path, "/");
    assert_eq!(host, "a:1");
    assert!(resolve_request_target("ftp://a", "h", &None).is_none());
}

#[test]
fn subprotocols_are_selected() {
    assert_eq!(select_default_subprotocol(Some(" , a, b")), Some("a"));
    assert_eq!(select_default_subprotocol(None), None);
    assert!(validate_supported_protocols(&["chat".to_string()]).is_ok());
    assert!(validate_supported_protocols(&["not a token".to_string()]).is_err());
    assert_eq!(
        select_supported_subprotocol(Some("x"), &["chat".to_string()]),
        None
    );
}

#[test]
fn generated_keys_are_valid_and_differ() {
    assert_eq!(
        key_from_bytes(b"the sample nonce"),
        "dGhlIHNhbXBsZSBub25jZQ=="
    );
    let a = generate_key();
    let b = generate_key();
    assert!(is_valid_websocket_key(&a));
    assert_ne!(a, b);
}

#[test]
fn written_requests_are_read_back() {
    let extra = vec![
        ("Origin".to_string(), " https://example.com\t".to_string()),
        ("X-Note".to_string(), "caf\u{e9}  \t".to_string()),
    ];
    let path = "/caf\u{e9}/{\"a\":1}?q=%20&r=<".replace('<', "x");
    let request = build_request_with_headers(
        "example.com:8080",
        &path,
        KEY,
        Some("chat, superchat"),
        Some("permessage-deflate; client_max_window_bits"),
        Some(&extra),
    )
    .unwrap();
    let (read, len) = parse_request(&request).unwrap().unwrap();
    assert_eq!(len, request.len());
    assert_eq!(read.path.as_ref(), path);
    assert_eq!(read.host, Some("example.com:8080"));
    assert_eq!(read.key, KEY);
    assert_eq!(read.protocol, Some("chat, superchat"));
    assert_eq!(
        read.extensions,
        Some("permessage-deflate; client_max_window_bits")
    );
    assert_eq!(read.origin, Some("https://example.com"));

    // Blanks at the ends of a text do not come back.
    let padded =
        build_request_with_headers(" example.com ", "/", KEY, None, None, None).unwrap();
    assert_eq!(
        parse_request(&padded).unwrap().unwrap().0.host,
        Some("example.com")
    );

    // A path may hold what a query may not, and the other way round.
    for (target, accepted) in [
        ("/\"", true),
        ("/?\"", false),
        ("/`", false),
        ("/?`", true),
        ("/<", false),
        ("/?>", false),
        ("/a?b?c", true),
        ("/a#b", false),
    ] {
        let request = build_request("h", target, KEY, None, None);
        assert_eq!(parse_request(&request).is_ok(), accepted, "{target}");
    }
}

#[test]
fn written_responses_are_read_back() {
    let accept = generate_accept_key(KEY);
    assert_eq!(accept.len(), 28);
    let response = build_response(&accept, Some("chat"), Some("permessage-deflate"));
    let mut buf = response.to_vec();
    buf.extend_from_slice(&[0x81, 0x00]);
    let (read, len) = parse_response(&buf).unwrap().unwrap();
    assert_eq!(len, response.len());
    assert_eq!(read.status, 101);
    assert_eq!(read.accept, Some(accept.as_str()));
    assert_eq!(read.protocol, Some("chat"));
    assert_eq!(read.extensions, Some("permessage-deflate"));
}
