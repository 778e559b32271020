//! What the Extended CONNECT handshake promises of the fields it reads and
//! writes.
use crate::client;
use crate::extended_connect;
use crate::extended_connect::{AnswerView, ConnectView, ExtendedConnectConfig};
use crate::handshake;
use crate::handshake::UriView;
use crate::strings;
use crate::text_laws;
use vstd::prelude::*;
use vstd::utf8::*;

verus! {

/// A byte of visible ASCII, a space or a tab.
pub open spec fn plain_byte(b: u8) -> bool {
    (32 <= b && b <= 126) || b == 9
}

/// Whether bytes are all plain.
pub open spec fn plain(bytes: Seq<u8>) -> bool {
    forall|i: int| 0 <= i < bytes.len() ==> plain_byte(#[trigger] bytes[i])
}

/// Whether a text has one character for each byte, of the same number.
pub open spec fn spelled(bytes: Seq<u8>, t: Seq<char>) -> bool {
    &&& t.len() == bytes.len()
    &&& forall|i: int| 0 <= i < t.len() ==> #[trigger] t[i] as u32 == bytes[i] as u32
}

/// A header value is text where all its bytes are plain, and the text spells
/// the bytes.
pub proof fn law_plain_bytes_are_text(bytes: Seq<u8>)
    ensures
        extended_connect::header_text(bytes) is Some <==> plain(bytes),
        plain(bytes) ==> spelled(bytes, extended_connect::header_text(bytes)->0),
{
    if plain(bytes) {
        let t = Seq::new(bytes.len(), |i: int| bytes[i] as char);
        assert forall|i: int| 0 <= i < t.len() implies #[trigger] t[i] as u32
            == bytes[i] as u32 by {
            assert(plain_byte(bytes[i]));
        }
        assert(is_ascii_chars(t));
        is_ascii_chars_encode_utf8(t);
        assert(encode_utf8(t) =~= bytes);
        encode_utf8_decode_utf8(t);
        assert forall|i: int| 0 <= i < bytes.len() implies extended_connect::visible(
            #[trigger] bytes[i],
        ) by {
            assert(plain_byte(bytes[i]));
        }
    } else {
        let i = choose|i: int| 0 <= i < bytes.len() && !plain_byte(#[trigger] bytes[i]);
        assert(!extended_connect::visible(bytes[i]));
    }
}

/// A text of plain characters is read back from its bytes.
pub proof fn law_plain_text_reads_back(t: Seq<char>)
    requires
        forall|i: int| 0 <= i < t.len() ==> ' ' <= #[trigger] t[i] <= '~' || t[i] == '\t',
    ensures
        extended_connect::header_text(encode_utf8(t)) == Some(t),
{
    assert(is_ascii_chars(t));
    is_ascii_chars_encode_utf8(t);
    encode_utf8_decode_utf8(t);
    let bytes = encode_utf8(t);
    assert forall|i: int| 0 <= i < bytes.len() implies extended_connect::visible(
        #[trigger] bytes[i],
    ) by {
        assert(bytes[i] == t[i] as u8);
    }
}

/// Whether this is the first field of a name.
pub open spec fn first_named(
    headers: Seq<(Seq<char>, Seq<u8>)>,
    name: Seq<char>,
    i: int,
) -> bool {
    &&& 0 <= i < headers.len()
    &&& headers[i].0 == name
    &&& forall|j: int| 0 <= j < i ==> (#[trigger] headers[j]).0 != name
}

/// Whether a text is what the first field of a name says: nothing where there
/// is no such field, or its value is not plain.
pub open spec fn says(
    headers: Seq<(Seq<char>, Seq<u8>)>,
    name: Seq<char>,
    value: Option<Seq<char>>,
) -> bool {
    match value {
        Some(t) => exists|i: int| #[trigger]
            first_named(headers, name, i) && plain(headers[i].1) && spelled(headers[i].1, t),
        None => forall|i: int| #[trigger]
            first_named(headers, name, i) ==> !plain(headers[i].1),
    }
}

proof fn lemma_says(headers: Seq<(Seq<char>, Seq<u8>)>, name: Seq<char>)
    ensures
        says(headers, name, extended_connect::field_text(headers, name)),
        forall|i: int| #[trigger]
            first_named(headers, name, i) ==> extended_connect::field_text(headers, name)
                == extended_connect::header_text(headers[i].1),
{
    let at = lemma_first_field(headers, name);
    if at < headers.len() {
        assert(first_named(headers, name, at));
        law_plain_bytes_are_text(headers[at].1);
    }
    assert forall|i: int| #[trigger] first_named(headers, name, i) implies i == at by {
        if i < at {
            assert(headers[i].0 != name);
        }
        if at < i {
            assert(headers[at].0 != name);
        }
    }
}

proof fn lemma_first_field(headers: Seq<(Seq<char>, Seq<u8>)>, name: Seq<char>) -> (at: int)
    ensures
        0 <= at <= headers.len(),
        forall|j: int| 0 <= j < at ==> (#[trigger] headers[j]).0 != name,
        at < headers.len() ==> headers[at].0 == name && extended_connect::first_field(
            headers,
            name,
        ) == Some(headers[at].1),
        at == headers.len() ==> extended_connect::first_field(headers, name) is None,
    decreases headers.len(),
{
    if headers.len() == 0 {
        0
    } else if headers[0].0 == name {
        0
    } else {
        let rest = headers.drop_first();
        let at = lemma_first_field(rest, name);
        assert forall|j: int| 0 <= j < at + 1 implies (#[trigger] headers[j]).0 != name by {
            if j > 0 {
                assert(rest[j - 1] == headers[j]);
            }
        }
        if at < rest.len() {
            assert(headers[at + 1] == rest[at]);
        }
        at + 1
    }
}

/// The text of the first field of a name is the only thing that it says.
pub proof fn lemma_field_says(headers: Seq<(Seq<char>, Seq<u8>)>, name: Seq<char>)
    ensures
        says(headers, name, extended_connect::field_text(headers, name)),
        forall|other: Option<Seq<char>>| #[trigger]
            says(headers, name, other) ==> other == extended_connect::field_text(headers, name),
{
    lemma_says(headers, name);
    let value = extended_connect::field_text(headers, name);
    assert forall|other: Option<Seq<char>>| #[trigger]
        says(headers, name, other) implies other == value by {
        if let Some(t) = other {
            let i = choose|i: int| #[trigger]
                first_named(headers, name, i) && plain(headers[i].1) && spelled(headers[i].1, t);
            law_plain_bytes_are_text(headers[i].1);
            let u = extended_connect::header_text(headers[i].1)->0;
            assert forall|k: int| 0 <= k < t.len() implies t[k] == u[k] by {
                assert(t[k] as u32 == headers[i].1[k] as u32);
                assert(u[k] as u32 == headers[i].1[k] as u32);
                char_u32_cast(t[k], headers[i].1[k] as u32);
                char_u32_cast(u[k], headers[i].1[k] as u32);
            }
            assert(t =~= u);
        } else if let Some(u) = value {
            let i = choose|i: int| #[trigger]
                first_named(headers, name, i) && plain(headers[i].1) && spelled(headers[i].1, u);
            assert(!plain(headers[i].1));
        }
    }
}

/// A request is an Extended CONNECT request exactly where its method is
/// CONNECT, and each part of it is what the field or the part of the URI of its
/// own name says.
pub proof fn law_fields_are_read_by_name(
    method: Seq<char>,
    uri: UriView,
    headers: Seq<(Seq<char>, Seq<u8>)>,
)
    ensures
        extended_connect::connect_of(method, uri, headers) is Some <==> method == "CONNECT"@,
        extended_connect::connect_of(method, uri, headers) matches Some(r) ==> {
            &&& says(headers, "origin"@, r.origin)
            &&& says(headers, "sec-websocket-protocol"@, r.subprotocols)
            &&& says(headers, "sec-websocket-extensions"@, r.extensions)
            &&& says(headers, "sec-websocket-version"@, r.version)
            &&& says(headers, ":protocol"@, r.protocol)
            &&& uri.authority matches Some((authority, host)) ==> r.authority == authority
            &&& uri.authority is None ==> says(headers, "host"@, Some(r.authority)) || (says(
                headers,
                "host"@,
                None,
            ) && r.authority.len() == 0)
            &&& uri.path_and_query matches Some(path) ==> r.path == path
            &&& uri.path_and_query is None ==> r.path == seq!['/']
            &&& uri.scheme matches Some(scheme) ==> r.scheme == scheme
            &&& uri.scheme is None ==> r.scheme == "https"@
        },
{
    lemma_says(headers, "origin"@);
    lemma_says(headers, "sec-websocket-protocol"@);
    lemma_says(headers, "sec-websocket-extensions"@);
    lemma_says(headers, "sec-websocket-version"@);
    lemma_says(headers, ":protocol"@);
    lemma_says(headers, "host"@);
    reveal_strlit("/");
    assert("/"@ =~= seq!['/']);
}

/// Header fields as they go over the wire.
pub open spec fn encoded(headers: Seq<(Seq<char>, Seq<char>)>) -> Seq<(Seq<char>, Seq<u8>)> {
    headers.map_values(|h: (Seq<char>, Seq<char>)| (h.0, encode_utf8(h.1)))
}

/// Whether a text may stand in a header field.
pub open spec fn plain_text(t: Option<Seq<char>>) -> bool {
    t matches Some(s) ==> forall|i: int|
        0 <= i < s.len() ==> ' ' <= #[trigger] s[i] <= '~' || s[i] == '\t'
}

proof fn lemma_header_names_differ()
    ensures
        "origin"@ != "sec-websocket-protocol"@,
        "origin"@ != "sec-websocket-version"@,
        "sec-websocket-protocol"@ != "sec-websocket-version"@,
        "sec-websocket-extensions"@ != "origin"@,
        "sec-websocket-extensions"@ != "sec-websocket-version"@,
        "sec-websocket-extensions"@ != "sec-websocket-protocol"@,
        ":protocol"@ != "origin"@,
        ":protocol"@ != "sec-websocket-version"@,
        ":protocol"@ != "sec-websocket-protocol"@,
{
    reveal_strlit("origin");
    reveal_strlit(":protocol");
    reveal_strlit("sec-websocket-protocol");
    reveal_strlit("sec-websocket-version");
    reveal_strlit("sec-websocket-extensions");
    assert("origin"@.len() == 6);
    assert(":protocol"@.len() == 9);
    assert("sec-websocket-protocol"@.len() == 22);
    assert("sec-websocket-version"@.len() == 21);
    assert("sec-websocket-extensions"@.len() == 24);
}

/// What a client writes over HTTP/3 is what the server reads: the subprotocol,
/// the version and the origin.
pub proof fn law_http3_fields_read_back(
    uri: UriView,
    protocol: Option<Seq<char>>,
    origin: Option<Seq<char>>,
)
    requires
        plain_text(protocol),
        plain_text(origin),
    ensures
        ({
            let headers = encoded(client::http3_headers(protocol, origin));
            extended_connect::connect_of("CONNECT"@, uri, headers) matches Some(r)
                && r.subprotocols == protocol && r.origin == origin && r.version == Some("13"@)
                && r.extensions is None && r.protocol is None
        }),
{
    lemma_header_names_differ();
    let fields = client::http3_headers(protocol, origin);
    let headers = encoded(fields);
    assert(headers[0] == (fields[0].0, encode_utf8(fields[0].1)));
    assert(first_named(headers, "sec-websocket-version"@, 0));
    lemma_says(headers, "sec-websocket-version"@);
    lemma_version_is_plain();
    lemma_says(headers, "sec-websocket-protocol"@);
    lemma_says(headers, "origin"@);
    lemma_says(headers, "sec-websocket-extensions"@);
    lemma_says(headers, ":protocol"@);
    if let Some(p) = protocol {
        law_plain_text_reads_back(p);
        assert(headers[1] == ("sec-websocket-protocol"@, encode_utf8(p)));
        assert(first_named(headers, "sec-websocket-protocol"@, 1));
    }
    if let Some(o) = origin {
        law_plain_text_reads_back(o);
        let at = if protocol is Some {
            2int
        } else {
            1int
        };
        assert(headers[at] == ("origin"@, encode_utf8(o)));
        assert(first_named(headers, "origin"@, at));
    }
    lemma_first_field(headers, "sec-websocket-protocol"@);
    lemma_first_field(headers, "origin"@);
    lemma_first_field(headers, "sec-websocket-extensions"@);
    lemma_first_field(headers, ":protocol"@);
}

proof fn lemma_version_is_plain()
    ensures
        extended_connect::header_text(encode_utf8("13"@)) == Some("13"@),
{
    reveal_strlit("13");
    assert("13"@.len() == 2 && "13"@[0] == '1' && "13"@[1] == '3');
    law_plain_text_reads_back("13"@);
}

/// What a client writes over HTTP/2 is what the server reads: the subprotocol,
/// the version, and the origin where it is among the client's own fields.
pub proof fn law_http2_fields_read_back(
    uri: UriView,
    protocol: Option<Seq<char>>,
    extra: Seq<(Seq<char>, Seq<char>)>,
)
    requires
        plain_text(protocol),
    ensures
        ({
            let headers = encoded(client::http2_headers(protocol, extra));
            extended_connect::connect_of("CONNECT"@, uri, headers) matches Some(r) && {
                &&& r.version == Some("13"@)
                &&& protocol is Some ==> r.subprotocols == protocol
                &&& protocol is None && (forall|i: int|
                    0 <= i < extra.len() ==> (#[trigger] extra[i]).0 != "sec-websocket-protocol"@)
                    ==> r.subprotocols is None
                &&& forall|i: int|
                    0 <= i < extra.len() && (#[trigger] extra[i]).0 == "origin"@ && plain_text(
                        Some(extra[i].1),
                    ) && (forall|j: int| 0 <= j < i ==> (#[trigger] extra[j]).0 != "origin"@)
                        ==> r.origin == Some(extra[i].1)
                &&& (forall|i: int| 0 <= i < extra.len() ==> (#[trigger] extra[i]).0 != "origin"@)
                    ==> r.origin is None
            }
        }),
{
    lemma_header_names_differ();
    let fields = client::http2_headers(protocol, extra);
    let headers = encoded(fields);
    let n = if protocol is Some {
        2int
    } else {
        1int
    };
    assert(headers.len() == n + extra.len());
    assert forall|i: int| 0 <= i < extra.len() implies headers[n + i] == (
        (#[trigger] extra[i]).0,
        encode_utf8(extra[i].1),
    ) by {
        assert(fields[n + i] == extra[i]);
    }
    assert forall|j: int| n <= j < headers.len() implies (#[trigger] headers[j]).0 == extra[j
        - n].0 by {
        assert(fields[j] == extra[j - n]);
    }
    assert(headers[n - 1] == ("sec-websocket-version"@, encode_utf8("13"@)));
    if let Some(p) = protocol {
        law_plain_text_reads_back(p);
        assert(headers[0] == ("sec-websocket-protocol"@, encode_utf8(p)));
        assert(first_named(headers, "sec-websocket-protocol"@, 0));
    }
    assert(first_named(headers, "sec-websocket-version"@, n - 1));
    lemma_says(headers, "sec-websocket-version"@);
    lemma_version_is_plain();
    lemma_says(headers, "sec-websocket-protocol"@);
    lemma_says(headers, "origin"@);
    lemma_first_field(headers, "sec-websocket-protocol"@);
    lemma_first_field(headers, "origin"@);
    assert forall|i: int|
        0 <= i < extra.len() && (#[trigger] extra[i]).0 == "origin"@ && plain_text(
            Some(extra[i].1),
        ) && (forall|j: int| 0 <= j < i ==> (#[trigger] extra[j]).0
            != "origin"@) implies extended_connect::field_text(headers, "origin"@) == Some(
        extra[i].1,
    ) by {
        assert(headers[n + i] == (extra[i].0, encode_utf8(extra[i].1)));
        assert forall|j: int| 0 <= j < n + i implies (#[trigger] headers[j]).0 != "origin"@ by {
            if j >= n {
                assert(headers[j].0 == extra[j - n].0);
            }
        }
        assert(first_named(headers, "origin"@, n + i));
        let v = extra[i].1;
        assert(plain_text(Some(v)));
        law_plain_text_reads_back(v);
    }
}

/// What a server answers to a request: 405 to another method, 501 to another
/// protocol than a WebSocket, in whatever case it is written, 400 to another
/// version than 13, and acceptance of the request as it is to all others. The
/// transport's `:protocol` counts where no field gives one.
pub proof fn law_requests_are_answered(
    request: Option<ConnectView>,
    given: Option<Seq<char>>,
)
    ensures
        request is None ==> extended_connect::answer_to(request, given) == AnswerView::Refuse(
            405u16,
            Some("Expected CONNECT"@),
        ),
        request matches Some(r) ==> {
            let protocol = if r.protocol is Some {
                r.protocol
            } else {
                given
            };
            let answer = extended_connect::answer_to(request, given);
            let websocket = protocol matches Some(p) && strings::lowered(p) == "websocket"@;
            &&& !websocket ==> answer == AnswerView::Refuse(501u16, None)
            &&& websocket && r.version is Some && r.version->0 != "13"@ ==> answer
                == AnswerView::Refuse(400u16, None)
            &&& websocket && (r.version is None || r.version->0 == "13"@) ==> answer is Accept && {
                let a = answer->Accept_0;
                &&& a.protocol == protocol
                &&& a.path == r.path
                &&& a.authority == r.authority
                &&& a.scheme == r.scheme
                &&& a.subprotocols == r.subprotocols
                &&& a.extensions == r.extensions
                &&& a.origin == r.origin
                &&& a.version == r.version
            }
        },
{
    reveal_strlit("websocket");
    assert(strings::lowered("websocket"@) =~= "websocket"@);
}

/// What a configuration refuses beyond that: another version than the one it
/// requires with 400, and where it lists origins, a request without one of them
/// with 403.
pub proof fn law_configuration_refuses(c: ExtendedConnectConfig, r: ConnectView)
    ensures
        ({
            let websocket = r.protocol matches Some(p) && strings::lowered(p) == "websocket"@;
            let version = r.version is None || (r.version->0 == "13"@ && (
            c.required_version is Some ==> c.required_version->0@ == "13"@));
            let origin = c.allowed_origins@.len() == 0 || (r.origin is Some && exists|i: int|
                0 <= i < c.allowed_origins@.len() && (#[trigger] c.allowed_origins@[i])@
                    == r.origin->0);
            &&& !websocket ==> extended_connect::config_refusal(c, r) == Some(501u16)
            &&& websocket && !version ==> extended_connect::config_refusal(c, r) == Some(400u16)
            &&& websocket && version && !origin ==> extended_connect::config_refusal(c, r) == Some(
                403u16,
            )
            &&& websocket && version && origin ==> extended_connect::config_refusal(c, r) is None
        }),
{
    reveal_strlit("websocket");
    assert(strings::lowered("websocket"@) =~= "websocket"@);
    let all = handshake::string_views(c.allowed_origins@);
    assert forall|i: int| 0 <= i < c.allowed_origins@.len() implies #[trigger] all[i]
        == c.allowed_origins@[i]@ by {}
    if let Some(o) = r.origin {
        if all.contains(o) {
            let i = choose|i: int| 0 <= i < all.len() && all[i] == o;
            assert(c.allowed_origins@[i]@ == o);
        }
        if exists|i: int|
            0 <= i < c.allowed_origins@.len() && (#[trigger] c.allowed_origins@[i])@ == o {
            let i = choose|i: int|
                0 <= i < c.allowed_origins@.len() && (#[trigger] c.allowed_origins@[i])@ == o;
            assert(all[i] == o);
        }
    }
}

/// What a client asks of a URI: its authority and path, over https, for a
/// WebSocket of version 13 and the subprotocols given. Without an authority
/// there is nothing to ask.
pub proof fn law_client_asks_for_its_uri(uri: UriView, subprotocol: Option<Seq<char>>)
    ensures
        extended_connect::request_to(uri, subprotocol) is None <==> uri.authority is None,
        extended_connect::request_to(uri, subprotocol) matches Some(r) ==> {
            &&& uri.authority matches Some((authority, host)) && r.authority == authority
            &&& uri.path_and_query is Some ==> r.path == uri.path_and_query->0
            &&& uri.path_and_query is None ==> r.path == seq!['/']
            &&& r.scheme == "https"@
            &&& r.protocol == Some("websocket"@)
            &&& r.subprotocols == subprotocol
            &&& r.version == Some("13"@)
            &&& r.origin is None
            &&& r.extensions is None
        },
{
    reveal_strlit("/");
    assert("/"@ =~= seq!['/']);
}

/// What an HTTP/3 transport gives as `:protocol` is taken as it is, but for
/// WebTransport, which stands for a WebSocket.
pub proof fn law_http3_protocols(given: Option<Seq<char>>)
    ensures
        given is None ==> extended_connect::http3_protocol(given) is None,
        given == Some("webtransport"@) ==> extended_connect::http3_protocol(given) == Some(
            "websocket"@,
        ),
        given is Some && given->0 != "webtransport"@ ==> extended_connect::http3_protocol(given)
            == given,
{
}

/// A client takes an answer exactly where its status is 200 and it selects at
/// most one subprotocol, which is plain text and one of those offered. Of the
/// refusals over HTTP/3, 501 tells that there is no Extended CONNECT, and 403
/// that the connection is forbidden.
pub proof fn law_client_takes_answers(
    status: u16,
    selected: Seq<Seq<u8>>,
    offered: Option<Seq<char>>,
)
    ensures
        ({
            let takes = status == 200 && (selected.len() == 0 || (selected.len() == 1 && plain(
                selected[0],
            ) && offered is Some && exists|t: Seq<char>|
                {
                    &&& spelled(selected[0], t)
                    &&& #[trigger] text_laws::element_in(offered->0, t)
                }));
            &&& client::http2_refusal(status, selected, offered) is None <==> takes
            &&& client::http3_refusal(status, selected, offered) is None <==> takes
        }),
        status == 501 ==> client::http3_refusal(status, selected, offered) == Some(
            crate::error::Error::ExtendedConnectNotSupported,
        ),
        status == 403 ==> client::http3_refusal(status, selected, offered) == Some(
            crate::error::Error::HandshakeFailed("server returned 403: connection forbidden"),
        ),
        status != 200 ==> client::http2_refusal(status, selected, offered) == Some(
            crate::error::Error::HandshakeFailed("server rejected WebSocket upgrade"),
        ),
        status != 200 && status != 403 && status != 501 ==> client::http3_refusal(
            status,
            selected,
            offered,
        ) == client::http2_refusal(status, selected, offered),
{
    if selected.len() > 0 {
        law_plain_bytes_are_text(selected[0]);
        if plain(selected[0]) && offered is Some {
            let t = extended_connect::header_text(selected[0])->0;
            text_laws::law_elements_of_lists(offered->0, t);
            assert forall|u: Seq<char>| spelled(selected[0], u) implies u == t by {
                assert forall|i: int| 0 <= i < u.len() implies u[i] == t[i] by {
                    assert(u[i] as u32 == selected[0][i] as u32);
                    assert(t[i] as u32 == selected[0][i] as u32);
                    char_u32_cast(u[i], selected[0][i] as u32);
                    char_u32_cast(t[i], selected[0][i] as u32);
                }
                assert(u =~= t);
            }
        }
    }
}

/// The elements of a list are those of its parts, and an element is what stands
/// between commas without the whitespace around it.
pub proof fn law_lists_are_split_at_commas(
    a: Seq<char>,
    b: Seq<char>,
    left: Seq<char>,
    element: Seq<char>,
    right: Seq<char>,
)
    requires
        forall|i: int| 0 <= i < left.len() ==> strings::is_space(#[trigger] left[i]),
        forall|i: int| 0 <= i < right.len() ==> strings::is_space(#[trigger] right[i]),
        element.len() > 0 ==> !strings::is_space(element[0]) && !strings::is_space(element.last()),
        !element.contains(','),
    ensures
        extended_connect::list_of(Some(a + seq![','] + b)) == extended_connect::list_of(Some(a))
            + extended_connect::list_of(Some(b)),
        extended_connect::list_of(Some(left + element + right)) == seq![element],
        extended_connect::list_of(None).len() == 0,
{
    let f = |s: Seq<char>| strings::trimmed(s);
    text_laws::law_splitting_concatenates(a, ',', b);
    assert((strings::split_on(a, ',') + strings::split_on(b, ',')).map_values(f)
        =~= strings::split_on(a, ',').map_values(f) + strings::split_on(b, ',').map_values(f));
    let whole = left + element + right;
    text_laws::law_trimming_takes_whitespace_off(left, element, right);
    assert(!whole.contains(',')) by {
        if whole.contains(',') {
            let i = choose|i: int| 0 <= i < whole.len() && whole[i] == ',';
            if i < left.len() {
                assert(left[i] == ',');
            } else if i < left.len() + element.len() {
                assert(element[i - left.len()] == ',');
                assert(element.contains(','));
            } else {
                assert(right[i - left.len() - element.len()] == ',');
            }
        }
    }
    text_laws::law_splitting_concatenates(whole, ',', b);
    assert(strings::split_on(whole, ',').map_values(f) =~= seq![element]);
}

/// The settings unless they are changed: half a minute for the handshake, a
/// minute for the connection, version 13, and any origin.
pub proof fn law_default_settings(c: ExtendedConnectConfig)
    requires
        extended_connect::is_default_connect(c),
    ensures
        c.handshake_timeout == 30_000,
        c.connection_timeout == 60_000,
        c.required_version == Some("13"),
        c.allowed_origins@.len() == 0,
{
}

} // verus!
