use sockudo_ws::config::Http3Config;
use sockudo_ws::extended_connect::{
    answer_http2, answer_http3, build_extended_connect_error, build_extended_connect_response,
    header_str, is_header_safe, validate_extended_connect_response, ConnectAnswer,
    ConnectResponse, ExtendedConnectConfig, ExtendedConnectRequest, ExtendedConnectResponse,
    RawRequest, DEFAULT_CONNECTION_TIMEOUT, DEFAULT_HANDSHAKE_TIMEOUT, FORBIDDEN, NOT_IMPLEMENTED,
    OK,
};
use sockudo_ws::handshake::UriParts;
use sockudo_ws::Error;

fn header<'a>(response: &'a ConnectResponse, name: &str) -> Option<&'a str> {
    response
        .headers
        .iter()
        .find(|(n, _)| n == name)
        .map(|(_, v)| v.as_str())
}

fn protocols(response: &ConnectResponse) -> Vec<Vec<u8>> {
    response
        .headers
        .iter()
        .filter(|(n, _)| n == "sec-websocket-protocol")
        .map(|(_, v)| v.as_bytes().to_vec())
        .collect()
}

#[test]
fn extended_connect_test_build_response() {
    let response = build_extended_connect_response(None, None);
    assert_eq!(response.status, OK);
}

#[test]
fn test_build_response_with_protocol() {
    let response = build_extended_connect_response(Some("graphql-ws"), None);
    assert_eq!(response.status, OK);
    assert_eq!(
        header(&response, "sec-websocket-protocol").unwrap(),
        "graphql-ws"
    );
}

#[test]
fn response_subprotocol_must_be_a_single_offered_value() {
    let response = build_extended_connect_response(Some("superchat"), None);
    assert!(
        validate_extended_connect_response(&protocols(&response), Some("chat, superchat")).is_ok()
    );
    assert!(validate_extended_connect_response(&protocols(&response), Some("chat")).is_err());

    let mut duplicate = response;
    duplicate
        .headers
        .push(("sec-websocket-protocol".to_string(), "chat".to_string()));
    assert!(validate_extended_connect_response(&protocols(&duplicate), Some("chat")).is_err());
}

#[test]
fn test_extended_connect_request_new() {
    let req = ExtendedConnectRequest::new("wss://example.com/ws", Some("graphql-ws")).unwrap();
    assert_eq!(req.path, "/ws");
    assert_eq!(req.authority, "example.com");
    assert_eq!(req.scheme, "https");
    assert!(req.is_websocket());
    assert!(req.has_subprotocol("graphql-ws"));
}

#[test]
fn test_validation() {
    let mut req = ExtendedConnectRequest::new("wss://example.com/ws", None).unwrap();
    assert!(req.validate().is_ok());

    // Test with wrong protocol
    req.protocol = Some("unknown".to_string());
    assert_eq!(req.validate(), Err(NOT_IMPLEMENTED));

    // Test with missing protocol
    req.protocol = None;
    assert_eq!(req.validate(), Err(NOT_IMPLEMENTED));
}

#[test]
fn test_subprotocol_list() {
    let mut req = ExtendedConnectRequest::new("wss://example.com/ws", None).unwrap();
    req.subprotocols = Some("graphql-ws, json, binary".to_string());

    let protos = req.subprotocol_list();
    assert_eq!(protos, vec!["graphql-ws", "json", "binary"]);
    assert!(req.has_subprotocol("json"));
    assert!(req.has_subprotocol("GRAPHQL-WS")); // case insensitive
    assert!(!req.has_subprotocol("xml"));
}

#[test]
fn test_url() {
    let req = ExtendedConnectRequest::new("wss://example.com:8443/ws/chat", None).unwrap();
    assert_eq!(req.url(), "wss://example.com:8443/ws/chat");
}

fn raw(method: &str, headers: &[(&str, &str)]) -> RawRequest {
    RawRequest {
        method: method.to_string(),
        uri: UriParts {
            scheme: Some("https".to_string()),
            authority: Some(("example.com".to_string(), "example.com".to_string())),
            path_and_query: Some("/chat".to_string()),
        },
        headers: headers
            .iter()
            .map(|(n, v)| (n.to_string(), v.as_bytes().to_vec()))
            .collect(),
    }
}

const WEBSOCKET: [(&str, &str); 3] = [
    (":protocol", "websocket"),
    ("sec-websocket-version", "13"),
    ("sec-websocket-protocol", "chat, superchat"),
];

#[test]
fn only_connect_requests_are_read() {
    assert!(ExtendedConnectRequest::from_request(&raw("GET", &WEBSOCKET)).is_none());
    let req = ExtendedConnectRequest::from_request(&raw("CONNECT", &WEBSOCKET)).unwrap();
    assert_eq!(req.path, "/chat");
    assert_eq!(req.authority, "example.com");
    assert_eq!(req.version.as_deref(), Some("13"));
    assert!(req.extension_list().is_empty());
    assert_eq!(req.clone().subprotocol_list(), vec!["chat", "superchat"]);
}

#[test]
fn client_requests_are_accepted_by_validation() {
    for uri in ["ws://a/b", "wss://a.example:1/", "https://h/p?q"] {
        let req = ExtendedConnectRequest::new(uri, None).unwrap();
        assert!(req.validate().is_ok());
    }
    assert!(ExtendedConnectRequest::new("/no/authority", None).is_none());
}

#[test]
fn configuration_restricts_origins() {
    let config = ExtendedConnectConfig::default();
    assert_eq!(config.handshake_timeout, DEFAULT_HANDSHAKE_TIMEOUT);
    assert_eq!(config.connection_timeout, DEFAULT_CONNECTION_TIMEOUT);
    let mut req = ExtendedConnectRequest::new("wss://example.com/ws", None).unwrap();
    assert!(config.validate(&req).is_ok());

    let config = ExtendedConnectConfig::with_timeout(5)
        .connection_timeout(7)
        .allowed_origins(vec!["https://good.example".to_string()]);
    assert_eq!(config.handshake_timeout, 5);
    assert_eq!(config.connection_timeout, 7);
    req.origin = Some("https://good.example".to_string());
    assert!(config.validate(&req).is_ok());
    req.origin = Some("https://bad.example".to_string());
    assert_eq!(config.validate(&req), Err(FORBIDDEN));
}

#[test]
fn servers_answer_requests() {
    assert!(matches!(
        answer_http2(&raw("CONNECT", &WEBSOCKET)),
        ConnectAnswer::Accept(_)
    ));
    match answer_http2(&raw("GET", &[])) {
        ConnectAnswer::Refuse(status, _) => assert_eq!(status, 405),
        _ => panic!("a GET request must be refused"),
    }
    match answer_http2(&raw("CONNECT", &[("sec-websocket-version", "8")])) {
        ConnectAnswer::Refuse(status, _) => assert_eq!(status, 400),
        _ => panic!("another version must be refused"),
    }
    match answer_http3(&Http3Config::default(), &raw("CONNECT", &WEBSOCKET[1..]), Some("other")) {
        ConnectAnswer::Refuse(status, _) => assert_eq!(status, NOT_IMPLEMENTED),
        _ => panic!("another protocol must be refused"),
    }
    assert!(matches!(
        answer_http3(
            &Http3Config::default(),
            &raw("CONNECT", &WEBSOCKET[1..]),
            Some("websocket")
        ),
        ConnectAnswer::Accept(_)
    ));
}

#[test]
fn header_values_are_checked() {
    assert_eq!(header_str(b"plain\ttext"), Some("plain\ttext"));
    assert_eq!(header_str(b"\x7f"), None);
    assert_eq!(header_str("é".as_bytes()), None);
    assert!(is_header_safe(None));
    assert!(is_header_safe(Some("text")));
    assert!(!is_header_safe(Some("line\r\nbreak")));
    let response = build_extended_connect_error(400, Some("bad"));
    assert_eq!(response.status, 400);
}

#[test]
fn selected_subprotocol_must_be_text() {
    assert!(matches!(
        validate_extended_connect_response(&vec![vec![0xff]], Some("chat")),
        Err(Error::HandshakeFailed(_))
    ));
    assert!(validate_extended_connect_response(&Vec::new(), Some("chat")).is_ok());
}

#[test]
fn responses_carry_what_they_are_given() {
    assert_eq!(ExtendedConnectResponse::ok().status, OK);
    let r = ExtendedConnectResponse::ok_with_protocol("chat");
    assert_eq!(r.protocol.as_deref(), Some("chat"));
    let r = ExtendedConnectResponse::ok_with_options(Some("chat"), Some("x"));
    assert_eq!(r.extensions.as_deref(), Some("x"));
    assert_eq!(ExtendedConnectResponse::error(503).status, 503);
}
