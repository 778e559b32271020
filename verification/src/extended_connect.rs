//! Extended CONNECT handshake for HTTP/2 (RFC 8441) and HTTP/3 (RFC 9220)
//!
//! The types here hold what a request or a response says, whatever the
//! transport; the transport's own types are converted at the edge.
use crate::config::Http3Config;
use crate::error::{Error, Result};
use crate::handshake;
use crate::handshake::{parse_uri, validate_selected_protocol, UriParts, UriView};
use crate::strings;
use crate::strings::{eq_ignore_ascii_case, same, split_all, trim};
use crate::utf8::checked_str;
use vstd::prelude::*;
use vstd::string::StringExecFns;
use vstd::utf8::*;

verus! {

/// Default handshake timeout in milliseconds
pub const DEFAULT_HANDSHAKE_TIMEOUT: u64 = 30_000;

/// Default connection timeout in milliseconds
pub const DEFAULT_CONNECTION_TIMEOUT: u64 = 60_000;

/// Status of a request that was accepted
pub const OK: u16 = 200;

/// Status of a malformed request
pub const BAD_REQUEST: u16 = 400;

/// Status of a request whose origin is not allowed
pub const FORBIDDEN: u16 = 403;

/// Status of a request with another method
pub const METHOD_NOT_ALLOWED: u16 = 405;

/// Status of a request for a `:protocol` that is not supported
pub const NOT_IMPLEMENTED: u16 = 501;

// ---------------------------------------------------------------------------
// Header values
// ---------------------------------------------------------------------------

/// A byte of a header value that is text.
pub open spec fn visible(b: u8) -> bool {
    32 <= b < 127 || b == 9
}

/// The text of a header value, if it is text.
pub open spec fn header_text(bytes: Seq<u8>) -> Option<Seq<char>> {
    if forall|i: int| 0 <= i < bytes.len() ==> visible(#[trigger] bytes[i]) {
        Some(decode_utf8(bytes))
    } else {
        None
    }
}

/// Bytes below 128 are valid UTF-8.
proof fn lemma_ascii_valid(bytes: Seq<u8>)
    requires
        forall|i: int| 0 <= i < bytes.len() ==> visible(#[trigger] bytes[i]),
    ensures
        valid_utf8(bytes),
    decreases bytes.len(),
{
    if bytes.len() > 0 {
        let rest = pop_first_scalar(bytes);
        assert(bytes[0] < 128);
        assert(rest =~= bytes.skip(1));
        lemma_ascii_valid(rest);
    }
}

/// The text of a header value, if it is text
pub fn header_str<'a>(value: &'a [u8]) -> (r: Option<&'a str>)
    ensures
        handshake::text_of(r) == header_text(value@),
{
    let mut i: usize = 0;
    while i < value.len()
        invariant
            i <= value@.len(),
            forall|j: int| 0 <= j < i ==> visible(#[trigger] value@[j]),
        decreases value@.len() - i,
    {
        let b: u8 = value[i];
        if !((32 <= b && b < 127) || b == 9) {
            assert(!visible(value@[i as int]));
            return None;
        }
        i = i + 1;
    }
    proof {
        lemma_ascii_valid(value@);
    }
    let r = checked_str(value);
    proof {
        if let Some(s) = r {
            encode_utf8_decode_utf8(s@);
        }
    }
    r
}

// ---------------------------------------------------------------------------
// Requests
// ---------------------------------------------------------------------------

/// Extended CONNECT request for WebSocket over HTTP/2 and HTTP/3
#[derive(Debug)]
pub struct ExtendedConnectRequest {
    /// The `:path` pseudo-header (e.g., "/ws" or "/chat")
    pub path: String,
    /// The `:authority` pseudo-header (host:port)
    pub authority: String,
    /// The `:scheme` pseudo-header
    pub scheme: String,
    /// The `:protocol` pseudo-header (should be "websocket" for WebSocket)
    pub protocol: Option<String>,
    /// The `sec-websocket-protocol` header (optional subprotocol negotiation)
    pub subprotocols: Option<String>,
    /// The `sec-websocket-extensions` header (optional extensions)
    pub extensions: Option<String>,
    /// The `origin` header (optional, for CORS)
    pub origin: Option<String>,
    /// The `sec-websocket-version` header (should be "13")
    pub version: Option<String>,
}

/// An Extended CONNECT request as mathematical values.
#[verifier::ext_equal]
pub struct ConnectView {
    /// `:path`
    pub path: Seq<char>,
    /// `:authority`
    pub authority: Seq<char>,
    /// `:scheme`
    pub scheme: Seq<char>,
    /// `:protocol`
    pub protocol: Option<Seq<char>>,
    /// `sec-websocket-protocol`
    pub subprotocols: Option<Seq<char>>,
    /// `sec-websocket-extensions`
    pub extensions: Option<Seq<char>>,
    /// `origin`
    pub origin: Option<Seq<char>>,
    /// `sec-websocket-version`
    pub version: Option<Seq<char>>,
}

/// A request as the transport gives it.
#[derive(Debug)]
pub struct RawRequest {
    /// The method
    pub method: String,
    /// The parts of the request URI
    pub uri: UriParts,
    /// The header fields in order, with names in lower case
    pub headers: Vec<(String, Vec<u8>)>,
}

/// The header fields as mathematical values.
pub open spec fn raw_fields(headers: Seq<(String, Vec<u8>)>) -> Seq<(Seq<char>, Seq<u8>)> {
    headers.map_values(|h: (String, Vec<u8>)| (h.0@, h.1@))
}

/// The value of the first header field with a name.
pub open spec fn first_field(headers: Seq<(Seq<char>, Seq<u8>)>, name: Seq<char>) -> Option<Seq<u8>>
    decreases headers.len(),
{
    if headers.len() == 0 {
        None
    } else if headers[0].0 == name {
        Some(headers[0].1)
    } else {
        first_field(headers.drop_first(), name)
    }
}

/// The text of the first header field with a name, if it is text.
pub open spec fn field_text(headers: Seq<(Seq<char>, Seq<u8>)>, name: Seq<char>) -> Option<
    Seq<char>,
> {
    match first_field(headers, name) {
        Some(bytes) => header_text(bytes),
        None => None,
    }
}

/// The Extended CONNECT request that a request is, if its method is CONNECT.
pub open spec fn connect_of(
    method: Seq<char>,
    uri: UriView,
    headers: Seq<(Seq<char>, Seq<u8>)>,
) -> Option<ConnectView> {
    if method != "CONNECT"@ {
        None
    } else {
        Some(
            ConnectView {
                path: match uri.path_and_query {
                    Some(p) => p,
                    None => "/"@,
                },
                authority: match (uri.authority, field_text(headers, "host"@)) {
                    (Some((authority, _)), _) => authority,
                    (None, Some(host)) => host,
                    (None, None) => Seq::empty(),
                },
                scheme: match uri.scheme {
                    Some(scheme) => scheme,
                    None => "https"@,
                },
                protocol: field_text(headers, ":protocol"@),
                subprotocols: field_text(headers, "sec-websocket-protocol"@),
                extensions: field_text(headers, "sec-websocket-extensions"@),
                origin: field_text(headers, "origin"@),
                version: field_text(headers, "sec-websocket-version"@),
            },
        )
    }
}

/// The request that a client makes of a URI: none without an authority.
pub open spec fn request_to(uri: UriView, subprotocol: Option<Seq<char>>) -> Option<ConnectView> {
    match uri.authority {
        None => None,
        Some((authority, _)) => Some(
            ConnectView {
                path: match uri.path_and_query {
                    Some(p) => p,
                    None => "/"@,
                },
                authority,
                scheme: "https"@,
                protocol: Some("websocket"@),
                subprotocols: subprotocol,
                extensions: None,
                origin: None,
                version: Some("13"@),
            },
        ),
    }
}

/// A request that may be missing, as mathematical values.
pub open spec fn connect_view(r: Option<ExtendedConnectRequest>) -> Option<ConnectView> {
    match r {
        Some(request) => Some(request@),
        None => None,
    }
}

/// The elements of a list of subprotocols or extensions, without the whitespace
/// around them.
pub open spec fn list_of(value: Option<Seq<char>>) -> Seq<Seq<char>> {
    match value {
        Some(v) => strings::split_on(v, ',').map_values(|s: Seq<char>| strings::trimmed(s)),
        None => Seq::empty(),
    }
}

/// Whether a list of subprotocols holds one, in whatever case.
pub open spec fn lists(value: Option<Seq<char>>, proto: Seq<char>) -> bool {
    exists|i: int|
        0 <= i < list_of(value).len() && strings::lowered(#[trigger] list_of(value)[i])
            == strings::lowered(proto)
}

/// Whether a request is for a WebSocket.
pub open spec fn for_websocket(r: ConnectView) -> bool {
    r.protocol matches Some(p) && strings::lowered(p) == strings::lowered("websocket"@)
}

/// The status with which a request is refused, if it is.
pub open spec fn refusal(r: ConnectView) -> Option<u16> {
    if !for_websocket(r) {
        Some(NOT_IMPLEMENTED)
    } else if r.version matches Some(v) && v != "13"@ {
        Some(BAD_REQUEST)
    } else {
        None
    }
}

fn owned(s: Option<&str>) -> (r: Option<String>)
    ensures
        handshake::string_of(r) == handshake::text_of(s),
{
    match s {
        Some(t) => Some(t.to_owned()),
        None => None,
    }
}

fn copied(s: &Option<String>) -> (r: Option<String>)
    ensures
        handshake::string_of(r) == handshake::string_of(*s),
{
    match s {
        Some(t) => Some(t.as_str().to_owned()),
        None => None,
    }
}

/// The text of the first header field with a name, if it is text.
pub(crate) fn get_header_string(headers: &Vec<(String, Vec<u8>)>, name: &str) -> (r: Option<String>)
    ensures
        handshake::string_of(r) == field_text(raw_fields(headers@), name@),
{
    let ghost all = raw_fields(headers@);
    let mut i: usize = 0;
    assert(all.skip(0) =~= all);
    while i < headers.len()
        invariant
            i <= headers@.len(),
            all == raw_fields(headers@),
            first_field(all, name@) == first_field(all.skip(i as int), name@),
        decreases headers@.len() - i,
    {
        let ghost rest = all.skip(i as int);
        assert(rest[0] == (headers@[i as int].0@, headers@[i as int].1@));
        assert(rest.drop_first() =~= all.skip(i + 1));
        if same(headers[i].0.as_str(), name) {
            return owned(header_str(headers[i].1.as_slice()));
        }
        i = i + 1;
    }
    None
}

/// The elements of a list, without the whitespace around them.
fn trimmed_elements<'a>(value: &'a Option<String>) -> (r: Vec<&'a str>)
    ensures
        strings::views(r@) == list_of(handshake::string_of(*value)),
{
    let mut out: Vec<&'a str> = Vec::new();
    if let Some(v) = value {
        let parts = split_all(v.as_str(), ',');
        let ghost all = strings::split_on(v@, ',');
        let ghost want = list_of(Some(v@));
        let mut i: usize = 0;
        assert(strings::views(out@) =~= want.take(0));
        while i < parts.len()
            invariant
                i <= parts@.len(),
                strings::views(parts@) == all,
                want == all.map_values(|s: Seq<char>| strings::trimmed(s)),
                strings::views(out@) == want.take(i as int),
            decreases parts@.len() - i,
        {
            let ghost before = out@;
            assert(parts@[i as int]@ == strings::views(parts@)[i as int]);
            let part = trim(parts[i]);
            out.push(part);
            assert(strings::views(out@) =~= strings::views(before).push(part@));
            assert(want[i as int] == part@);
            i = i + 1;
            assert(strings::views(out@) =~= want.take(i as int));
        }
        assert(want.len() == parts@.len());
        assert(want.take(i as int) =~= want);
    } else {
        assert(strings::views(out@) =~= Seq::<Seq<char>>::empty());
    }
    out
}

impl Clone for ExtendedConnectRequest {
    fn clone(&self) -> (r: Self)
        ensures
            r@ == self@,
    {
        ExtendedConnectRequest {
            path: self.path.as_str().to_owned(),
            authority: self.authority.as_str().to_owned(),
            scheme: self.scheme.as_str().to_owned(),
            protocol: copied(&self.protocol),
            subprotocols: copied(&self.subprotocols),
            extensions: copied(&self.extensions),
            origin: copied(&self.origin),
            version: copied(&self.version),
        }
    }
}

impl ExtendedConnectRequest {
    /// The request as mathematical values.
    pub open spec fn view(&self) -> ConnectView {
        ConnectView {
            path: self.path@,
            authority: self.authority@,
            scheme: self.scheme@,
            protocol: handshake::string_of(self.protocol),
            subprotocols: handshake::string_of(self.subprotocols),
            extensions: handshake::string_of(self.extensions),
            origin: handshake::string_of(self.origin),
            version: handshake::string_of(self.version),
        }
    }

    /// Parse an HTTP request into an Extended CONNECT request
    ///
    /// Returns `None` if the request is not a CONNECT method.
    pub fn from_request(req: &RawRequest) -> (r: Option<Self>)
        ensures
            connect_view(r) == connect_of(req.method@, req.uri@, raw_fields(req.headers@)),
    {
        // Must be CONNECT method for Extended CONNECT
        if !same(req.method.as_str(), "CONNECT") {
            return None;
        }
        let path = match &req.uri.path_and_query {
            Some(p) => p.as_str().to_owned(),
            None => "/".to_owned(),
        };
        let authority = match &req.uri.authority {
            Some(a) => a.0.as_str().to_owned(),
            None => match get_header_string(&req.headers, "host") {
                Some(host) => host,
                None => String::new(),
            },
        };
        let scheme = match &req.uri.scheme {
            Some(s) => s.as_str().to_owned(),
            None => "https".to_owned(),
        };
        Some(
            ExtendedConnectRequest {
                path,
                authority,
                scheme,
                protocol: get_header_string(&req.headers, ":protocol"),
                subprotocols: get_header_string(&req.headers, "sec-websocket-protocol"),
                extensions: get_header_string(&req.headers, "sec-websocket-extensions"),
                origin: get_header_string(&req.headers, "origin"),
                version: get_header_string(&req.headers, "sec-websocket-version"),
            },
        )
    }

    /// The request that a client makes of the parts of a URI
    pub fn from_uri(uri: &UriParts, subprotocol: Option<&str>) -> (r: Option<Self>)
        ensures
            connect_view(r) == request_to(uri@, handshake::text_of(subprotocol)),
    {
        let authority = match &uri.authority {
            Some(a) => a.0.as_str().to_owned(),
            None => {
                return None;
            },
        };
        let path = match &uri.path_and_query {
            Some(p) => p.as_str().to_owned(),
            None => "/".to_owned(),
        };
        Some(
            ExtendedConnectRequest {
                path,
                authority,
                scheme: "https".to_owned(),
                protocol: Some("websocket".to_owned()),
                subprotocols: owned(subprotocol),
                extensions: None,
                origin: None,
                version: Some("13".to_owned()),
            },
        )
    }

    /// Create a new Extended CONNECT request for client use
    pub fn new(uri: &str, subprotocol: Option<&str>) -> (r: Option<Self>)
        ensures
            connect_view(r) == match handshake::uri_parts(uri@) {
                Some(parts) => request_to(parts, handshake::text_of(subprotocol)),
                None => None,
            },
    {
        match parse_uri(uri) {
            Some(parts) => Self::from_uri(&parts, subprotocol),
            None => None,
        }
    }

    /// Check if this is a valid WebSocket Extended CONNECT request
    ///
    /// Per RFC 8441/9220, the `:protocol` pseudo-header must be "websocket".
    pub fn is_websocket(&self) -> (r: bool)
        ensures
            r == for_websocket(self@),
    {
        match &self.protocol {
            Some(p) => eq_ignore_ascii_case(p.as_str(), "websocket"),
            None => false,
        }
    }

    /// Check if the request specifies a particular subprotocol
    pub fn has_subprotocol(&self, proto: &str) -> (r: bool)
        ensures
            r == lists(self@.subprotocols, proto@),
    {
        let all = trimmed_elements(&self.subprotocols);
        let ghost want = list_of(self@.subprotocols);
        let mut i: usize = 0;
        while i < all.len()
            invariant
                i <= all@.len(),
                strings::views(all@) == want,
                want == list_of(self@.subprotocols),
                forall|j: int|
                    0 <= j < i ==> strings::lowered(#[trigger] want[j]) != strings::lowered(proto@),
            decreases all@.len() - i,
        {
            assert(all@[i as int]@ == strings::views(all@)[i as int]);
            if eq_ignore_ascii_case(all[i], proto) {
                assert(strings::lowered(want[i as int]) == strings::lowered(proto@));
                return true;
            }
            i = i + 1;
        }
        assert(want.len() == all@.len());
        false
    }

    /// Get the list of requested subprotocols
    pub fn subprotocol_list(&self) -> (r: Vec<&str>)
        ensures
            strings::views(r@) == list_of(self@.subprotocols),
    {
        trimmed_elements(&self.subprotocols)
    }

    /// Get the list of requested extensions
    pub fn extension_list(&self) -> (r: Vec<&str>)
        ensures
            strings::views(r@) == list_of(self@.extensions),
    {
        trimmed_elements(&self.extensions)
    }

    /// Get the full WebSocket URL
    pub fn url(&self) -> (r: String)
        ensures
            r@ == url_of(self@),
    {
        let mut url = if same(self.scheme.as_str(), "https") {
            "wss".to_owned()
        } else {
            "ws".to_owned()
        };
        url.append("://");
        url.append(self.authority.as_str());
        url.append(self.path.as_str());
        url
    }

    /// Validate the request according to RFC 8441/9220 requirements
    ///
    /// Returns the HTTP status code to refuse it with if it is not valid:
    /// `:protocol` must be "websocket", and `sec-websocket-version` must be "13"
    /// if present.
    pub fn validate(&self) -> (r: core::result::Result<(), u16>)
        ensures
            match refusal(self@) {
                Some(status) => r == Err::<(), u16>(status),
                None => r is Ok,
            },
    {
        // :protocol must be "websocket" for WebSocket
        if !self.is_websocket() {
            // RFC 9220 Section 3: Return 501 for unsupported :protocol
            return Err(NOT_IMPLEMENTED);
        }
        if let Some(version) = &self.version {
            if !same(version.as_str(), "13") {
                return Err(BAD_REQUEST);
            }
        }
        Ok(())
    }
}

/// The full WebSocket URL of a request.
pub open spec fn url_of(r: ConnectView) -> Seq<char> {
    (if r.scheme == "https"@ {
        "wss"@
    } else {
        "ws"@
    }) + "://"@ + r.authority + r.path
}

/// The requests that a client makes are accepted, and their URL is that of the
/// authority and path asked for.
pub proof fn law_client_requests_are_accepted(uri: UriView, subprotocol: Option<Seq<char>>)
    ensures
        request_to(uri, subprotocol) matches Some(r) ==> refusal(r) is None && url_of(r) == "wss"@
            + "://"@ + r.authority + r.path,
{
}

// ---------------------------------------------------------------------------
// Responses
// ---------------------------------------------------------------------------

/// Extended CONNECT response
#[derive(Debug)]
pub struct ExtendedConnectResponse {
    /// HTTP status code (200 for success)
    pub status: u16,
    /// Selected subprotocol (if any)
    pub protocol: Option<String>,
    /// Accepted extensions (if any)
    pub extensions: Option<String>,
}

/// What a conversion of an optional text into a string may give.
pub open spec fn converted<T: Into<String>>(given: Option<T>, r: Option<String>) -> bool {
    match given {
        Some(t) => r matches Some(s) && call_ensures(<T as Into<String>>::into, (t,), s),
        None => r is None,
    }
}

fn into_string<T: Into<String>>(given: Option<T>) -> (r: Option<String>)
    requires
        given matches Some(t) ==> call_requires(<T as Into<String>>::into, (t,)),
    ensures
        converted(given, r),
{
    match given {
        Some(t) => Some(t.into()),
        None => None,
    }
}

impl ExtendedConnectResponse {
    /// Create a successful response
    pub fn ok() -> (r: Self)
        ensures
            r.status == OK,
            r.protocol is None,
            r.extensions is None,
    {
        ExtendedConnectResponse { status: OK, protocol: None, extensions: None }
    }

    /// Create a successful response with a selected subprotocol
    pub fn ok_with_protocol<T: Into<String>>(protocol: T) -> (r: Self)
        requires
            call_requires(<T as Into<String>>::into, (protocol,)),
        ensures
            r.status == OK,
            converted(Some(protocol), r.protocol),
            r.extensions is None,
    {
        ExtendedConnectResponse {
            status: OK,
            protocol: into_string(Some(protocol)),
            extensions: None,
        }
    }

    /// Create a successful response with a selected subprotocol and extensions
    pub fn ok_with_options<T: Into<String>, U: Into<String>>(
        protocol: Option<T>,
        extensions: Option<U>,
    ) -> (r: Self)
        requires
            protocol matches Some(t) ==> call_requires(<T as Into<String>>::into, (t,)),
            extensions matches Some(u) ==> call_requires(<U as Into<String>>::into, (u,)),
        ensures
            r.status == OK,
            converted(protocol, r.protocol),
            converted(extensions, r.extensions),
    {
        ExtendedConnectResponse {
            status: OK,
            protocol: into_string(protocol),
            extensions: into_string(extensions),
        }
    }

    /// Create an error response
    pub fn error(status: u16) -> (r: Self)
        ensures
            r.status == status,
            r.protocol is None,
            r.extensions is None,
    {
        ExtendedConnectResponse { status, protocol: None, extensions: None }
    }
}

/// A response to send: a status and header fields.
#[derive(Debug)]
pub struct ConnectResponse {
    /// HTTP status code
    pub status: u16,
    /// Header fields in order
    pub headers: Vec<(String, String)>,
}

/// A character that can stand in a header field of a response.
pub open spec fn safe_char(c: char) -> bool {
    ' ' <= c <= '~' || c == '\t'
}

/// A text of such characters.
pub open spec fn all_safe(s: Seq<char>) -> bool {
    forall|i: int| 0 <= i < s.len() ==> safe_char(#[trigger] s[i])
}

/// A text, if there is one, that can stand in a header field of a response.
pub open spec fn header_safe(value: Option<Seq<char>>) -> bool {
    value is Some ==> all_safe(value->0)
}

/// A header field that may be missing.
pub open spec fn optional_header(name: Seq<char>, value: Option<Seq<char>>) -> Seq<
    (Seq<char>, Seq<char>),
> {
    match value {
        Some(v) => seq![(name, v)],
        None => seq![],
    }
}

/// Check if a text can stand in a header field of a response
pub fn is_header_safe(value: Option<&str>) -> (r: bool)
    ensures
        r == header_safe(handshake::text_of(value)),
{
    let v = match value {
        Some(v) => v,
        None => {
            return true;
        },
    };
    let chars = strings::chars_of(v);
    let mut i: usize = 0;
    while i < chars.len()
        invariant
            i <= chars@.len(),
            chars@ == v@,
            value == Some(v),
            forall|j: int| 0 <= j < i ==> safe_char(#[trigger] v@[j]),
        decreases chars@.len() - i,
    {
        let c = chars[i];
        if !((' ' <= c && c <= '~') || c == '\t') {
            assert(!safe_char(v@[i as int]));
            assert(!all_safe(v@));
            return false;
        }
        i = i + 1;
    }
    true
}

fn push_header(headers: &mut Vec<(String, String)>, name: &str, value: Option<&str>)
    ensures
        handshake::header_views(final(headers)@) == handshake::header_views(old(headers)@)
            + optional_header(name@, handshake::text_of(value)),
{
    let ghost before = headers@;
    if let Some(v) = value {
        headers.push((name.to_owned(), v.to_owned()));
    }
    assert(handshake::header_views(headers@) =~= handshake::header_views(before)
        + optional_header(name@, handshake::text_of(value)));
}

/// Build an HTTP 200 OK response for Extended CONNECT WebSocket upgrade, with
/// the selected subprotocol and the accepted extensions
pub fn build_extended_connect_response(protocol: Option<&str>, extensions: Option<&str>) -> (r:
    ConnectResponse)
    requires
        header_safe(handshake::text_of(protocol)),
        header_safe(handshake::text_of(extensions)),
    ensures
        r.status == OK,
        handshake::header_views(r.headers@) == optional_header(
            "sec-websocket-protocol"@,
            handshake::text_of(protocol),
        ) + optional_header("sec-websocket-extensions"@, handshake::text_of(extensions)),
{
    let mut headers: Vec<(String, String)> = Vec::new();
    assert(handshake::header_views(headers@) =~= Seq::<(Seq<char>, Seq<char>)>::empty());
    push_header(&mut headers, "sec-websocket-protocol", protocol);
    push_header(&mut headers, "sec-websocket-extensions", extensions);
    assert(handshake::header_views(headers@) =~= optional_header(
        "sec-websocket-protocol"@,
        handshake::text_of(protocol),
    ) + optional_header("sec-websocket-extensions"@, handshake::text_of(extensions)));
    ConnectResponse { status: OK, headers }
}

/// Build an HTTP error response for rejecting Extended CONNECT
///
/// The status is 400 for a malformed request, 403 for an origin that is not
/// allowed, 501 for an unsupported `:protocol` value (RFC 9220).
pub fn build_extended_connect_error(status: u16, reason: Option<&str>) -> (r: ConnectResponse)
    requires
        header_safe(handshake::text_of(reason)),
    ensures
        r.status == status,
        handshake::header_views(r.headers@) == optional_header(
            "x-error-reason"@,
            handshake::text_of(reason),
        ),
{
    let mut headers: Vec<(String, String)> = Vec::new();
    assert(handshake::header_views(headers@) =~= Seq::<(Seq<char>, Seq<char>)>::empty());
    push_header(&mut headers, "x-error-reason", reason);
    assert(handshake::header_views(headers@) =~= optional_header(
        "x-error-reason"@,
        handshake::text_of(reason),
    ));
    ConnectResponse { status, headers }
}

/// What a client makes of the `sec-websocket-protocol` fields of a response: at
/// most one, which selects a subprotocol that was offered.
pub open spec fn response_error(selected: Seq<Seq<u8>>, offered: Option<Seq<char>>) -> Option<Error> {
    if selected.len() > 0 && header_text(selected[0]) is None {
        Some(Error::HandshakeFailed("invalid subprotocol response"))
    } else if selected.len() > 1 {
        Some(Error::HandshakeFailed("duplicate Sec-WebSocket-Protocol"))
    } else if selected.len() == 1 && !handshake::selection_allowed(
        offered,
        header_text(selected[0]),
    ) {
        Some(Error::HandshakeFailed("server returned an unoffered subprotocol"))
    } else {
        None
    }
}

/// The values of header fields.
pub open spec fn value_views(values: Seq<Vec<u8>>) -> Seq<Seq<u8>> {
    values.map_values(|v: Vec<u8>| v@)
}

/// Check the `sec-websocket-protocol` fields of a response
pub fn validate_extended_connect_response(
    protocols: &Vec<Vec<u8>>,
    offered_protocol: Option<&str>,
) -> (r: Result<()>)
    ensures
        match response_error(value_views(protocols@), handshake::text_of(offered_protocol)) {
            Some(e) => r == Err::<(), Error>(e),
            None => r is Ok,
        },
{
    let ghost values = value_views(protocols@);
    if protocols.len() == 0 {
        return validate_selected_protocol(offered_protocol, None);
    }
    assert(values[0] == protocols@[0]@);
    let selected = match header_str(protocols[0].as_slice()) {
        Some(s) => s,
        None => {
            return Err(Error::HandshakeFailed("invalid subprotocol response"));
        },
    };
    if protocols.len() > 1 {
        return Err(Error::HandshakeFailed("duplicate Sec-WebSocket-Protocol"));
    }
    validate_selected_protocol(offered_protocol, Some(selected))
}

// ---------------------------------------------------------------------------
// Configuration
// ---------------------------------------------------------------------------

/// Configuration for Extended CONNECT handshake with timeout support
#[derive(Debug)]
pub struct ExtendedConnectConfig {
    /// Timeout for the handshake operation in milliseconds
    pub handshake_timeout: u64,
    /// Timeout for connection establishment (used by HTTP/3) in milliseconds
    pub connection_timeout: u64,
    /// Required WebSocket version (typically "13")
    pub required_version: Option<&'static str>,
    /// Allowed origins (empty means all allowed)
    pub allowed_origins: Vec<String>,
}

/// The settings unless they are changed.
pub open spec fn is_default_connect(c: ExtendedConnectConfig) -> bool {
    &&& c.handshake_timeout == DEFAULT_HANDSHAKE_TIMEOUT
    &&& c.connection_timeout == DEFAULT_CONNECTION_TIMEOUT
    &&& c.required_version == Some("13")
    &&& c.allowed_origins@.len() == 0
}

impl Default for ExtendedConnectConfig {
    fn default() -> (r: Self)
        ensures
            is_default_connect(r),
    {
        ExtendedConnectConfig {
            handshake_timeout: DEFAULT_HANDSHAKE_TIMEOUT,
            connection_timeout: DEFAULT_CONNECTION_TIMEOUT,
            required_version: Some("13"),
            allowed_origins: Vec::new(),
        }
    }
}

/// The status with which a server with a configuration refuses a request, if it
/// does.
pub open spec fn config_refusal(c: ExtendedConnectConfig, r: ConnectView) -> Option<u16> {
    if refusal(r) is Some {
        refusal(r)
    } else if c.required_version matches Some(required) && r.version matches Some(v) && v
        != required@ {
        Some(BAD_REQUEST)
    } else if c.allowed_origins@.len() > 0 && !(r.origin matches Some(origin)
        && handshake::string_views(c.allowed_origins@).contains(origin)) {
        Some(FORBIDDEN)
    } else {
        None
    }
}

impl ExtendedConnectConfig {
    /// Create a new config with custom handshake timeout
    pub fn with_timeout(timeout: u64) -> (r: Self)
        ensures
            r.handshake_timeout == timeout,
            r.connection_timeout == DEFAULT_CONNECTION_TIMEOUT,
            r.required_version == Some("13"),
            r.allowed_origins@.len() == 0,
    {
        ExtendedConnectConfig {
            handshake_timeout: timeout,
            connection_timeout: DEFAULT_CONNECTION_TIMEOUT,
            required_version: Some("13"),
            allowed_origins: Vec::new(),
        }
    }

    /// Set the connection timeout (for HTTP/3)
    pub fn connection_timeout(self, timeout: u64) -> (r: Self)
        ensures
            r == (ExtendedConnectConfig { connection_timeout: timeout, ..self }),
    {
        ExtendedConnectConfig { connection_timeout: timeout, ..self }
    }

    /// Set allowed origins for CORS validation
    pub fn allowed_origins(self, origins: Vec<String>) -> (r: Self)
        ensures
            r == (ExtendedConnectConfig { allowed_origins: origins, ..self }),
    {
        ExtendedConnectConfig { allowed_origins: origins, ..self }
    }

    /// Validate an Extended CONNECT request against this configuration
    ///
    /// Returns the HTTP status code to refuse it with if it is not valid.
    pub fn validate(&self, request: &ExtendedConnectRequest) -> (r: core::result::Result<(), u16>)
        ensures
            match config_refusal(*self, request@) {
                Some(status) => r == Err::<(), u16>(status),
                None => r is Ok,
            },
    {
        // First, validate the request per RFC 8441/9220
        if let Err(status) = request.validate() {
            return Err(status);
        }
        // Check WebSocket version if required

        if let Some(required) = self.required_version {
            if let Some(version) = &request.version {
                if !same(version.as_str(), required) {
                    return Err(BAD_REQUEST);
                }
            }
        }
        // Check origin if allowed_origins is not empty

        if self.allowed_origins.len() > 0 {
            match &request.origin {
                Some(origin) => {
                    if !self.allows(origin.as_str()) {
                        return Err(FORBIDDEN);
                    }
                },
                // No origin header when origins are required
                None => {
                    return Err(FORBIDDEN);
                },
            }
        }
        Ok(())
    }

    fn allows(&self, origin: &str) -> (r: bool)
        ensures
            r == handshake::string_views(self.allowed_origins@).contains(origin@),
    {
        let ghost all = handshake::string_views(self.allowed_origins@);
        let mut i: usize = 0;
        while i < self.allowed_origins.len()
            invariant
                i <= self.allowed_origins@.len(),
                all == handshake::string_views(self.allowed_origins@),
                forall|j: int| 0 <= j < i ==> #[trigger] all[j] != origin@,
            decreases self.allowed_origins@.len() - i,
        {
            assert(all[i as int] == self.allowed_origins@[i as int]@);
            if same(self.allowed_origins[i].as_str(), origin) {
                return true;
            }
            i = i + 1;
        }
        false
    }
}

/// A configuration refuses every request that is refused without it.
pub proof fn law_configuration_only_restricts(c: ExtendedConnectConfig, r: ConnectView)
    ensures
        refusal(r) is Some ==> config_refusal(c, r) == refusal(r),
        is_default_connect(c) ==> config_refusal(c, r) == refusal(r),
{
}

// ---------------------------------------------------------------------------
// Servers
// ---------------------------------------------------------------------------

/// What a server answers to a request.
#[derive(Debug)]
pub enum ConnectAnswer {
    /// Accept it
    Accept(ExtendedConnectRequest),
    /// Refuse it with a status, perhaps for a reason
    Refuse(u16, Option<&'static str>),
}

/// What a server answers, as mathematical values.
pub enum AnswerView {
    Accept(ConnectView),
    Refuse(u16, Option<Seq<char>>),
}

impl ConnectAnswer {
    /// The answer as mathematical values.
    pub open spec fn view(&self) -> AnswerView {
        match self {
            ConnectAnswer::Accept(r) => AnswerView::Accept(r@),
            ConnectAnswer::Refuse(status, reason) => AnswerView::Refuse(
                *status,
                handshake::text_of(*reason),
            ),
        }
    }
}

/// What a server answers to a request, where `protocol` is the `:protocol` that
/// the transport gave beside the header fields.
pub open spec fn answer_to(request: Option<ConnectView>, protocol: Option<Seq<char>>) -> AnswerView {
    match request {
        None => AnswerView::Refuse(METHOD_NOT_ALLOWED, Some("Expected CONNECT"@)),
        Some(r) => {
            let full = ConnectView {
                protocol: if r.protocol is Some {
                    r.protocol
                } else {
                    protocol
                },
                ..r
            };
            match refusal(full) {
                Some(status) => AnswerView::Refuse(status, None),
                None => AnswerView::Accept(full),
            }
        },
    }
}

/// The `:protocol` that an HTTP/3 transport gives: WebSockets come as
/// WebTransport there.
pub open spec fn http3_protocol(given: Option<Seq<char>>) -> Option<Seq<char>> {
    match given {
        Some(p) => if p == "webtransport"@ {
            Some("websocket"@)
        } else {
            Some(p)
        },
        None => None,
    }
}

fn answer_request(request: Option<ExtendedConnectRequest>, protocol: Option<&str>) -> (r:
    ConnectAnswer)
    ensures
        r@ == answer_to(connect_view(request), handshake::text_of(protocol)),
{
    match request {
        Some(request) => {
            let mut ws_req = request;
            if ws_req.protocol.is_none() {
                ws_req.protocol = owned(protocol);
            }
            if let Err(status) = ws_req.validate() {
                return ConnectAnswer::Refuse(status, None);
            }
            ConnectAnswer::Accept(ws_req)
        },
        None => ConnectAnswer::Refuse(METHOD_NOT_ALLOWED, Some("Expected CONNECT")),
    }
}

/// What an HTTP/2 server answers: a request without `:protocol` is for a WebSocket
pub fn answer_http2(req: &RawRequest) -> (r: ConnectAnswer)
    ensures
        r@ == answer_to(
            connect_of(req.method@, req.uri@, raw_fields(req.headers@)),
            Some("websocket"@),
        ),
{
    answer_request(ExtendedConnectRequest::from_request(req), Some("websocket"))
}

/// What an HTTP/3 server answers, where the transport gives this `:protocol`
pub fn answer_http3(config: &Http3Config, req: &RawRequest, protocol: Option<&str>) -> (r:
    ConnectAnswer)
    ensures
        r@ == if !config.enable_connect_protocol {
            AnswerView::Refuse(NOT_IMPLEMENTED, Some("Extended CONNECT is disabled"@))
        } else {
            answer_to(
                connect_of(req.method@, req.uri@, raw_fields(req.headers@)),
                http3_protocol(handshake::text_of(protocol)),
            )
        },
{
    if !config.enable_connect_protocol {
        return ConnectAnswer::Refuse(NOT_IMPLEMENTED, Some("Extended CONNECT is disabled"));
    }
    let given = match protocol {
        Some(p) => if same(p, "webtransport") {
            Some("websocket")
        } else {
            Some(p)
        },
        None => None,
    };
    answer_request(ExtendedConnectRequest::from_request(req), given)
}

} // verus!
