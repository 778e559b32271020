//! What the two sides of a handshake are told where they are refused.
use crate::axum_integration;
use crate::axum_integration::WebSocketUpgradeRejection;
use crate::connect_laws;
use crate::deflate;
use crate::deflate::{DeflateOffer, Param};
use crate::error::{Error, Result};
use crate::extended_connect;
use crate::grammar;
use crate::handshake;
use crate::handshake::{
    RequestFieldsView, RequestHeadView, RequestView, ResponseFieldsView, ResponseHeadView,
    ResponseView, UriView,
};
use crate::request_laws;
use crate::strings;
use vstd::prelude::*;
use vstd::utf8::*;

verus! {

/// Whether something was refused because HTTP was not kept to.
pub open spec fn bad_http<T>(r: Result<T>, why: &'static str) -> bool {
    r == Err::<T, Error>(Error::InvalidHttp(why))
}

/// Whether something was refused because the handshake was not kept to.
pub open spec fn bad_handshake<T>(r: Result<T>, why: &'static str) -> bool {
    r == Err::<T, Error>(Error::HandshakeFailed(why))
}

/// What a request is told of its first line and its length, which come first.
pub proof fn law_refused_heads(head: RequestHeadView, uri: Option<UriView>)
    ensures
        ({
            let r = handshake::request_of(head, uri);
            &&& head.len > 8192 ==> bad_http(r, "request too large")
            &&& head.len <= 8192 && head.method != Some("GET"@) ==> bad_http(
                r,
                "method must be GET",
            )
            &&& head.len <= 8192 && head.method == Some("GET"@) && head.version != Some(1u8)
                ==> bad_http(r, "HTTP version must be 1.1")
            &&& head.len <= 8192 && head.method == Some("GET"@) && head.version == Some(1u8)
                && handshake::request_fields(head.headers) is Err ==> r == Err::<
                RequestView,
                Error,
            >(handshake::request_fields(head.headers)->Err_0)
        }),
{
}

/// What a request is told that lacks something, in the order in which it is
/// looked for.
pub proof fn law_incomplete_requests(
    head: RequestHeadView,
    uri: Option<UriView>,
    f: RequestFieldsView,
)
    requires
        head.len <= 8192,
        head.method == Some("GET"@),
        head.version == Some(1u8),
        handshake::request_fields(head.headers) == Ok::<RequestFieldsView, Error>(f),
    ensures
        ({
            let r = handshake::request_of(head, uri);
            let asked = f.upgrade && f.connection_upgrade;
            let named = asked && f.key is Some && f.version is Some;
            let hosted = named && f.host is Some && f.host->0.len() > 0;
            let spoken = hosted && f.version == Some("13"@);
            let keyed = spoken && handshake::encodes_sixteen_bytes(f.key->0);
            &&& !f.upgrade ==> bad_handshake(r, "missing Upgrade: websocket")
            &&& f.upgrade && !f.connection_upgrade ==> bad_handshake(
                r,
                "missing Connection: Upgrade",
            )
            &&& asked && f.key is None ==> bad_handshake(r, "missing Sec-WebSocket-Key")
            &&& asked && f.key is Some && f.version is None ==> bad_handshake(
                r,
                "missing Sec-WebSocket-Version",
            )
            &&& named && !hosted ==> bad_handshake(r, "missing Host")
            &&& hosted && !spoken ==> bad_handshake(r, "unsupported WebSocket version")
            &&& spoken && !keyed ==> bad_handshake(r, "invalid Sec-WebSocket-Key")
            &&& keyed && head.path is None ==> bad_http(r, "missing request target")
            &&& keyed && head.path is Some && handshake::target_of(
                head.path->0,
                f.host->0,
                uri,
            ) is None ==> bad_http(r, "invalid request target")
        }),
{
}

/// What a request is told of a field that is not text, stands there twice, is no
/// list, or announces a body.
pub proof fn law_refused_request_fields(f: RequestFieldsView, name: Seq<char>, bytes: Seq<u8>)
    ensures
        ({
            let r = handshake::with_request_field(f, name, bytes);
            let text = valid_utf8(bytes);
            let value = decode_utf8(bytes);
            let field = strings::lowered(name);
            &&& !text ==> bad_http(r, "invalid header value")
            &&& text && field == "sec-websocket-key"@ && f.key is Some ==> bad_handshake(
                r,
                "duplicate Sec-WebSocket-Key",
            )
            &&& text && field == "sec-websocket-version"@ && f.version is Some ==> bad_handshake(
                r,
                "duplicate Sec-WebSocket-Version",
            )
            &&& text && field == "sec-websocket-protocol"@ && !grammar::protocol_list(value)
                ==> bad_handshake(r, "invalid Sec-WebSocket-Protocol")
            &&& text && field == "sec-websocket-extensions"@ && !grammar::extension_list(value)
                ==> bad_handshake(r, "invalid Sec-WebSocket-Extensions")
            &&& text && field == "content-length"@ && !grammar::zero_length(value) ==> bad_http(
                r,
                "WebSocket handshake must not contain a body",
            )
            &&& text && field == "transfer-encoding"@ ==> bad_http(
                r,
                "WebSocket handshake must not use Transfer-Encoding",
            )
        }),
{
    request_laws::lemma_names();
}

/// What a client makes of a response that does not accept, in the order in which
/// it looks.
pub proof fn law_refused_responses(head: ResponseHeadView)
    ensures
        ({
            let r = handshake::response_of(head);
            let begun = head.len <= 8192 && head.code == Some(101u16) && head.version == Some(1u8);
            &&& head.len > 8192 ==> bad_http(r, "response too large")
            &&& head.len <= 8192 && head.code != Some(101u16) ==> bad_handshake(
                r,
                "expected 101 Switching Protocols",
            )
            &&& head.len <= 8192 && head.code == Some(101u16) && head.version != Some(1u8)
                ==> bad_http(r, "HTTP version must be 1.1")
            &&& begun ==> match handshake::response_fields(head.headers) {
                Err(e) => r == Err::<ResponseView, Error>(e),
                Ok(f) => {
                    &&& !f.upgrade ==> bad_handshake(r, "missing Upgrade: websocket")
                    &&& f.upgrade && !f.connection_upgrade ==> bad_handshake(
                        r,
                        "missing Connection: Upgrade",
                    )
                },
            }
        }),
{
}

/// What a client makes of a field of a response that is not text, stands there
/// twice, or says something else than it may.
pub proof fn law_refused_response_fields(f: ResponseFieldsView, name: Seq<char>, bytes: Seq<u8>)
    ensures
        ({
            let r = handshake::with_response_field(f, name, bytes);
            let text = valid_utf8(bytes);
            let value = decode_utf8(bytes);
            let field = strings::lowered(name);
            &&& !text ==> bad_http(r, "invalid header value")
            &&& text && field == "sec-websocket-accept"@ && f.accept is Some ==> bad_handshake(
                r,
                "duplicate Sec-WebSocket-Accept",
            )
            &&& text && field == "sec-websocket-protocol"@ && f.protocol is Some ==> bad_handshake(
                r,
                "duplicate Sec-WebSocket-Protocol",
            )
            &&& text && field == "sec-websocket-protocol"@ && f.protocol is None && !grammar::token(
                value,
            ) ==> bad_handshake(r, "invalid Sec-WebSocket-Protocol")
            &&& text && field == "sec-websocket-extensions"@ && f.extensions is Some
                ==> bad_handshake(r, "duplicate Sec-WebSocket-Extensions")
            &&& text && field == "sec-websocket-extensions"@ && f.extensions is None
                && !grammar::extension_list(value) ==> bad_handshake(
                r,
                "invalid Sec-WebSocket-Extensions",
            )
            &&& text && field == "upgrade"@ && strings::lowered(value) != "websocket"@
                ==> bad_handshake(r, "missing Upgrade: websocket")
        }),
{
    request_laws::lemma_names();
}

/// What a client makes of a response without the proof that its key was read, and
/// of a subprotocol that it did not offer.
pub proof fn law_answers_without_proof(
    response: ResponseView,
    consumed: nat,
    buf: Seq<u8>,
    key: Seq<char>,
    path: Seq<char>,
    offered: Option<Seq<char>>,
)
    ensures
        ({
            let r = handshake::accepted(response, consumed, buf, key, path, offered);
            let proven = response.accept == Some(handshake::accept_key(key));
            &&& response.accept is None ==> bad_handshake(r, "missing Sec-WebSocket-Accept")
            &&& response.accept is Some && !proven ==> bad_handshake(
                r,
                "invalid Sec-WebSocket-Accept",
            )
            &&& proven && r is Err ==> bad_handshake(
                r,
                "server returned an unoffered subprotocol",
            )
        }),
{
}

/// What a caller is told of a request that cannot be built, in the order in which
/// its parts are looked at.
pub proof fn law_requests_not_built(
    host: Seq<char>,
    path: Seq<char>,
    key: Seq<char>,
    protocol: Option<Seq<char>>,
    extensions: Option<Seq<char>>,
    extra: Seq<(Seq<char>, Seq<char>)>,
)
    ensures
        ({
            let e = handshake::request_error(host, path, key, protocol, extensions, extra);
            let hosted = host.len() > 0 && grammar::header_value(host);
            let aimed = hosted && grammar::request_target(path);
            let keyed = aimed && handshake::encodes_sixteen_bytes(key);
            let spoken = keyed && (protocol matches Some(p) ==> grammar::protocol_list(p)
                && !grammar::lists_nothing(p));
            let extended = spoken && (extensions matches Some(x) ==> grammar::extension_list(x)
                && !grammar::lists_nothing(x));
            &&& !hosted ==> e == Some(Error::InvalidHttp("invalid Host"))
            &&& hosted && !aimed ==> e == Some(Error::InvalidHttp("invalid request target"))
            &&& aimed && !keyed ==> e == Some(Error::InvalidHttp("invalid Sec-WebSocket-Key"))
            &&& keyed && !spoken ==> e == Some(
                Error::InvalidHttp("invalid Sec-WebSocket-Protocol"),
            )
            &&& spoken && !extended ==> e == Some(
                Error::InvalidHttp("invalid Sec-WebSocket-Extensions"),
            )
            &&& extended ==> e == handshake::extra_headers_error(extra)
        }),
{
}

/// What a caller is told of a field that cannot be added.
pub proof fn law_fields_not_added(name: Seq<char>, value: Seq<char>)
    ensures
        ({
            let e = handshake::extra_header_error((name, value));
            &&& !grammar::token(name) ==> e == Some(Error::InvalidHttp("invalid header name"))
            &&& grammar::token(name) && handshake::reserved_header(name) ==> e == Some(
                Error::InvalidHttp("reserved handshake header"),
            )
            &&& grammar::token(name) && !handshake::reserved_header(name)
                && !grammar::header_value(value) ==> e == Some(
                Error::InvalidHttp("invalid header value"),
            )
        }),
{
}

/// The first field that cannot be added is the one that is told of.
pub proof fn law_first_bad_field_is_told(
    good: Seq<(Seq<char>, Seq<char>)>,
    bad: (Seq<char>, Seq<char>),
    rest: Seq<(Seq<char>, Seq<char>)>,
)
    requires
        handshake::extra_headers_error(good) is None,
        handshake::extra_header_error(bad) is Some,
    ensures
        handshake::extra_headers_error(good.push(bad) + rest) == handshake::extra_header_error(bad),
    decreases good.len(),
{
    let all = good.push(bad) + rest;
    if good.len() > 0 {
        assert(all[0] == good[0]);
        assert(all.drop_first() =~= good.drop_first().push(bad) + rest);
        law_first_bad_field_is_told(good.drop_first(), bad, rest);
    } else {
        assert(all[0] == bad);
    }
}

/// Which rejection an upgrade gets: the first that applies, in this order.
pub proof fn law_upgrades_are_rejected(
    method: Seq<char>,
    headers: Seq<(Seq<char>, Seq<u8>)>,
    can_upgrade: bool,
)
    ensures
        ({
            let r = axum_integration::upgrade_rejection(method, headers, can_upgrade);
            let upgrade = extended_connect::field_text(headers, "upgrade"@);
            let connection = extended_connect::field_text(headers, "connection"@);
            let get = method == "GET"@;
            let up = get && upgrade is Some && strings::lowered_holds(upgrade->0, "websocket"@);
            let on = up && connection is Some && strings::lowered_holds(
                connection->0,
                "upgrade"@,
            );
            let keyed = on && extended_connect::field_text(headers, "sec-websocket-key"@) is Some;
            let version = extended_connect::field_text(headers, "sec-websocket-version"@);
            &&& !get <==> r == Some(WebSocketUpgradeRejection::MethodNotGet)
            &&& get && upgrade is None <==> r == Some(
                WebSocketUpgradeRejection::MissingUpgradeHeader,
            )
            &&& get && upgrade is Some && !up <==> r == Some(
                WebSocketUpgradeRejection::InvalidUpgradeHeader,
            )
            &&& up && connection is None <==> r == Some(
                WebSocketUpgradeRejection::MissingConnectionHeader,
            )
            &&& up && connection is Some && !on <==> r == Some(
                WebSocketUpgradeRejection::InvalidConnectionHeader,
            )
            &&& on && !keyed <==> r == Some(WebSocketUpgradeRejection::MissingSecWebSocketKey)
            &&& keyed && version is None <==> r == Some(
                WebSocketUpgradeRejection::MissingSecWebSocketVersion,
            )
            &&& keyed && version is Some && version->0 != "13"@ <==> r == Some(
                WebSocketUpgradeRejection::UnsupportedVersion,
            )
            &&& keyed && version == Some("13"@) && !can_upgrade <==> r == Some(
                WebSocketUpgradeRejection::MissingUpgrade,
            )
        }),
{
}

/// What an offer of compression is told of a parameter that it may not have.
pub proof fn law_refused_parameters(offer: DeflateOffer, value: Option<Seq<char>>)
    ensures
        offer.server_no_context_takeover ==> deflate::with_param(
            offer,
            ("server_no_context_takeover"@, value),
        ) == Err::<DeflateOffer, &'static str>("duplicate server_no_context_takeover"),
        !offer.server_no_context_takeover && value is Some ==> deflate::with_param(
            offer,
            ("server_no_context_takeover"@, value),
        ) == Err::<DeflateOffer, &'static str>("server_no_context_takeover must not have a value"),
        offer.client_no_context_takeover ==> deflate::with_param(
            offer,
            ("client_no_context_takeover"@, value),
        ) == Err::<DeflateOffer, &'static str>("duplicate client_no_context_takeover"),
        !offer.client_no_context_takeover && value is Some ==> deflate::with_param(
            offer,
            ("client_no_context_takeover"@, value),
        ) == Err::<DeflateOffer, &'static str>("client_no_context_takeover must not have a value"),
        offer.server_max_window_bits is Some ==> deflate::with_param(
            offer,
            ("server_max_window_bits"@, value),
        ) == Err::<DeflateOffer, &'static str>("duplicate server_max_window_bits"),
        offer.server_max_window_bits is None && value is None ==> deflate::with_param(
            offer,
            ("server_max_window_bits"@, value),
        ) == Err::<DeflateOffer, &'static str>("server_max_window_bits requires a value"),
        offer.client_max_window_bits is Some ==> deflate::with_param(
            offer,
            ("client_max_window_bits"@, value),
        ) == Err::<DeflateOffer, &'static str>("duplicate client_max_window_bits"),
{
    reveal_strlit("server_no_context_takeover");
    reveal_strlit("client_no_context_takeover");
    reveal_strlit("server_max_window_bits");
    reveal_strlit("client_max_window_bits");
    assert("server_no_context_takeover"@[0] == 's' && "client_no_context_takeover"@[0] == 'c');
    assert("server_max_window_bits"@[0] == 's' && "client_max_window_bits"@[0] == 'c');
    assert("server_no_context_takeover"@.len() == 26 && "client_no_context_takeover"@.len() == 26);
    assert("server_max_window_bits"@.len() == 22 && "client_max_window_bits"@.len() == 22);
}

/// What an offer of compression is told of a window that is none.
pub proof fn law_refused_windows(offer: DeflateOffer, v: Seq<char>)
    requires
        deflate::window_bits_of(v) is None,
        offer.server_max_window_bits is None,
        offer.client_max_window_bits is None,
    ensures
        deflate::with_param(offer, ("server_max_window_bits"@, Some(v))) == Err::<
            DeflateOffer,
            &'static str,
        >("invalid server_max_window_bits value"),
        deflate::with_param(offer, ("client_max_window_bits"@, Some(v))) == Err::<
            DeflateOffer,
            &'static str,
        >("invalid client_max_window_bits value"),
{
    reveal_strlit("server_no_context_takeover");
    reveal_strlit("client_no_context_takeover");
    reveal_strlit("server_max_window_bits");
    reveal_strlit("client_max_window_bits");
    assert("server_max_window_bits"@[0] == 's' && "client_max_window_bits"@[0] == 'c');
    assert("server_no_context_takeover"@.len() == 26 && "client_no_context_takeover"@.len() == 26);
    assert("server_max_window_bits"@.len() == 22 && "client_max_window_bits"@.len() == 22);
}

/// What an offer of compression is told of a parameter that is not known.
pub proof fn law_unknown_parameters(offer: DeflateOffer, param: Param)
    requires
        param.0 != "server_no_context_takeover"@,
        param.0 != "client_no_context_takeover"@,
        param.0 != "server_max_window_bits"@,
        param.0 != "client_max_window_bits"@,
    ensures
        deflate::with_param(offer, param) == Err::<DeflateOffer, &'static str>(
            "unknown permessage-deflate parameter",
        ),
{
}

/// What a client over HTTP/2 or HTTP/3 makes of an answer that selects a
/// subprotocol wrongly.
pub proof fn law_refused_selections(selected: Seq<Seq<u8>>, offered: Option<Seq<char>>)
    ensures
        ({
            let e = extended_connect::response_error(selected, offered);
            let plain = selected.len() > 0 && connect_laws::plain(selected[0]);
            &&& selected.len() == 0 ==> e is None
            &&& selected.len() > 0 && !plain ==> e == Some(
                Error::HandshakeFailed("invalid subprotocol response"),
            )
            &&& plain && selected.len() > 1 ==> e == Some(
                Error::HandshakeFailed("duplicate Sec-WebSocket-Protocol"),
            )
            &&& plain && selected.len() == 1 && e is Some ==> e == Some(
                Error::HandshakeFailed("server returned an unoffered subprotocol"),
            )
        }),
{
    if selected.len() > 0 {
        connect_laws::law_plain_bytes_are_text(selected[0]);
    }
}

} // verus!
