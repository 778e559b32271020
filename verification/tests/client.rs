use sockudo_ws::bench::{
    batch_len, check_upgrade, judge_response, push_batch, test_data, BenchPlan, BenchStats,
    HandshakeProgress, BATCH_SIZE,
};
use sockudo_ws::client::{
    check_http2_response, check_http3_response, check_multiplexed_status, connect_uri_of,
    http2_connect_headers, http2_connect_uri, http3_connect_headers, http3_connect_uri, parse_url,
};
use sockudo_ws::handshake::{build_response, generate_accept_key, UriParts};
use sockudo_ws::{Config, Error, Http1, Http2, Http3, Message, WebSocketClient};

#[test]
fn clients_keep_their_configuration() {
    let config = Config::builder().max_frame_size(77).build();
    let client = WebSocketClient::<Http1>::new(config.clone());
    assert_eq!(client.config().max_frame_size, 77);
    let client = WebSocketClient::<Http2>::new(config.clone());
    assert_eq!(client.clone().config().max_frame_size, 77);
    let client = WebSocketClient::<Http3>::new(config);
    assert_eq!(client.config().max_frame_size, 77);
    assert_eq!(
        WebSocketClient::<Http1>::default_config().config().idle_timeout,
        120
    );
    assert_eq!(
        WebSocketClient::<Http2>::default_config().config().idle_timeout,
        120
    );
    assert_eq!(
        WebSocketClient::<Http3>::default_config().config().idle_timeout,
        120
    );
}

#[test]
fn urls_lead_somewhere() {
    let cases = [
        ("ws://example.com", "example.com", 80, "/"),
        ("wss://example.com", "example.com", 443, "/"),
        ("wss://example.com:8443/chat?a=b", "example.com", 8443, "/chat?a=b"),
        ("ws://h:+1/", "h", 1, "/"),
        ("ws://[::1]:9001/x", "[::1]", 9001, "/x"),
    ];
    for (url, host, port, path) in cases {
        let target = parse_url(url).unwrap();
        assert_eq!(target.host, host);
        assert_eq!(target.port, port);
        assert_eq!(target.path, path);
        assert_eq!(target.address(), format!("{host}:{port}"));
    }
}

#[test]
fn bad_urls_are_refused() {
    let cases = [
        ("example.com", "invalid URL: missing scheme"),
        ("http://example.com", "invalid URL scheme: expected ws or wss"),
        ("ws://h:port/", "invalid port"),
        ("ws://h:65536/", "invalid port"),
        ("ws://h:/", "invalid port"),
        ("ws:///path", "URL missing host"),
        ("ws://:80/path", "URL missing host"),
    ];
    for (url, expected) in cases {
        match parse_url(url) {
            Err(Error::HandshakeFailed(text)) => assert_eq!(text, expected, "{url}"),
            other => panic!("{url}: {other:?}"),
        }
    }
}

#[test]
fn connect_requests_name_the_target() {
    assert_eq!(
        http2_connect_uri("https://example.com:1/p?q").unwrap(),
        "https://example.com:1/p?q"
    );
    assert!(matches!(
        http2_connect_uri("/only/a/path"),
        Err(Error::HandshakeFailed("URI missing authority"))
    ));
    assert!(matches!(
        http2_connect_uri("not a uri"),
        Err(Error::HandshakeFailed("invalid URI"))
    ));
    let parts = Some(UriParts {
        scheme: None,
        authority: Some(("a:2".to_string(), "a".to_string())),
        path_and_query: None,
    });
    assert_eq!(connect_uri_of(&parts).unwrap(), "https://a:2/");
    assert_eq!(
        http3_connect_uri("localhost", 4433, "/h3"),
        "https://localhost:4433/h3"
    );
}

fn pair(a: &str, b: &str) -> (String, String) {
    (a.to_string(), b.to_string())
}

#[test]
fn connect_requests_carry_their_headers() {
    let extra = [pair("x", "y")];
    assert_eq!(
        http2_connect_headers(Some("chat"), Some(&extra)),
        vec![
            pair("sec-websocket-protocol", "chat"),
            pair("sec-websocket-version", "13"),
            pair("x", "y"),
        ]
    );
    assert_eq!(
        http2_connect_headers(None, None),
        vec![pair("sec-websocket-version", "13")]
    );
    assert_eq!(
        http3_connect_headers(Some("chat"), Some("https://o")),
        vec![
            pair("sec-websocket-version", "13"),
            pair("sec-websocket-protocol", "chat"),
            pair("origin", "https://o"),
        ]
    );
}

#[test]
fn answers_are_judged() {
    let chosen = vec![b"chat".to_vec()];
    assert!(check_http2_response(200, &chosen, Some("chat")).is_ok());
    assert!(check_http3_response(200, &chosen, Some("a, chat")).is_ok());
    assert!(check_http2_response(200, &chosen, None).is_err());
    assert!(check_http3_response(200, &chosen, Some("other")).is_err());
    assert!(matches!(
        check_http2_response(403, &Vec::new(), None),
        Err(Error::HandshakeFailed("server rejected WebSocket upgrade"))
    ));
    assert!(matches!(
        check_http3_response(501, &Vec::new(), None),
        Err(Error::ExtendedConnectNotSupported)
    ));
    assert!(matches!(
        check_http3_response(403, &Vec::new(), None),
        Err(Error::HandshakeFailed("server returned 403: connection forbidden"))
    ));
    assert!(matches!(
        check_http3_response(404, &Vec::new(), None),
        Err(Error::HandshakeFailed("server rejected WebSocket upgrade"))
    ));
    assert!(check_multiplexed_status(200).is_ok());
    assert!(check_multiplexed_status(500).is_err());
}

#[test]
fn benchmark_arguments() {
    let args = |list: &[&str]| -> Vec<String> { list.iter().map(|s| s.to_string()).collect() };
    let plan = BenchPlan::from_args(&args(&["bench"]));
    assert_eq!(plan.host, "127.0.0.1:9001");
    assert_eq!(plan.message_size, 128);
    assert_eq!(plan.message_count, 100_000);
    assert_eq!(plan.connections, 1);
    let plan = BenchPlan::from_args(&args(&["bench", "h:1", "5", "x", "18446744073709551615"]));
    assert_eq!(plan.host, "h:1");
    assert_eq!(plan.message_size, 5);
    assert_eq!(plan.message_count, 100_000);
    assert_eq!(plan.connections, usize::MAX);
}

#[test]
fn benchmark_handshake() {
    let key = "dGhlIHNhbXBsZSBub25jZQ==";
    let response = build_response(&generate_accept_key(key), None, None);
    let n = response.len();
    assert!(matches!(
        check_upgrade(&response, key),
        HandshakeProgress::Accepted(len) if len == n
    ));
    assert!(matches!(
        check_upgrade(&response[..10], key),
        HandshakeProgress::NeedMore
    ));
    assert!(matches!(
        check_upgrade(&response, "another key"),
        HandshakeProgress::InvalidAcceptKey
    ));
    assert!(matches!(
        check_upgrade(b"\0\0\0", key),
        HandshakeProgress::Failed(Error::InvalidHttp(_))
    ));
    assert!(matches!(
        judge_response(Ok(None), key),
        HandshakeProgress::NeedMore
    ));
}

#[test]
fn benchmark_counts() {
    let data = test_data(300);
    assert_eq!(data.len(), 300);
    assert_eq!(data[255], 255);
    assert_eq!(data[256], 0);
    assert_eq!(batch_len(2500, 0), BATCH_SIZE);
    assert_eq!(batch_len(2500, 2000), 500);
    let mut out = bytes::BytesMut::new();
    push_batch(b"ab", 3, &mut out);
    assert_eq!(&out[..], b"ababab");

    let stats = BenchStats::new();
    let messages = vec![
        Message::text("abc"),
        Message::ping("ignored"),
        Message::binary(vec![1u8, 2]),
        Message::Close(None),
        Message::text("not counted"),
    ];
    let stats = stats.tally(&messages).unwrap();
    assert_eq!(stats, BenchStats { messages: 2, bytes: 5 });
    assert!(stats.is_done(2));
    assert!(!stats.is_done(3));
    assert_eq!(
        stats.plus(&stats).unwrap(),
        BenchStats { messages: 4, bytes: 10 }
    );
    let full = BenchStats { messages: 0, bytes: usize::MAX };
    assert!(full.plus(&stats).is_none());
    assert!(full.tally(&messages).is_none());
}
