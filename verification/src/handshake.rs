//! WebSocket handshake implementation
//!
//! The HTTP upgrade handshake of both sides. Splitting the head of a message
//! into its lines is left to `httparse`, reading an absolute request target to
//! `http`; [`request_of`] and [`response_of`] say what is made of the result.
use crate::buffer;
use crate::buffer::{bytes_from_string, BufferView};
use crate::error::{Error, Result};
use crate::grammar;
use crate::grammar::{has_element, has_empty_element, has_token_ignore_case};
use crate::grammar::{has_valid_percent_encoding, is_header_value, is_request_target, is_token};
use crate::grammar::{is_valid_extension_list, is_valid_protocol_list, is_zero_content_length};
use crate::grammar::list_elements;
use crate::handshake_laws;
use crate::mask::generate_key_bytes;
use crate::strings;
use crate::strings::{chars_of, eq_ignore_ascii_case, same};
use crate::utf8;
use crate::WS_GUID;
use base64::engine::general_purpose::STANDARD;
use base64::Engine;
use bytes::Bytes;
use http::Uri;
use sha1::{Digest, Sha1};
use std::borrow::Cow;
use vstd::prelude::*;
use vstd::string::{StrSliceExecFns, StringExecFns};
use vstd::utf8::*;

verus! {

/// Maximum HTTP header size
pub const MAX_HEADER_SIZE: usize = 8192;

/// Maximum number of header fields
pub const MAX_HEADERS: usize = 32;

// ---------------------------------------------------------------------------
// Keys
// ---------------------------------------------------------------------------

/// The text of bytes in base64 with padding, in the standard alphabet.
pub uninterp spec fn base64_text(bytes: Seq<u8>) -> Seq<char>;

/// The SHA-1 digest of bytes.
pub uninterp spec fn sha1_digest(bytes: Seq<u8>) -> Seq<u8>;

/// The number that a character of the standard base64 alphabet stands for.
pub open spec fn base64_value(c: char) -> Option<int> {
    if 'A' <= c <= 'Z' {
        Some(c as u32 - 'A' as u32)
    } else if 'a' <= c <= 'z' {
        Some(26 + (c as u32 - 'a' as u32))
    } else if '0' <= c <= '9' {
        Some(52 + (c as u32 - '0' as u32))
    } else if c == '+' {
        Some(62)
    } else if c == '/' {
        Some(63)
    } else {
        None
    }
}

/// Whether a text is the base64 text of sixteen bytes: twenty-two characters
/// of the alphabet, the last of which leaves four bits unused, and padding.
pub open spec fn encodes_sixteen_bytes(s: Seq<char>) -> bool {
    &&& s.len() == 24
    &&& forall|i: int| 0 <= i < 22 ==> base64_value(#[trigger] s[i]) is Some
    &&& base64_value(s[21])->0 % 16 == 0
    &&& s[22] == '='
    &&& s[23] == '='
}

/// Whether a text is made of the base64 alphabet and padding alone.
pub open spec fn base64_chars(s: Seq<char>) -> bool {
    forall|i: int| 0 <= i < s.len() ==> base64_value(#[trigger] s[i]) is Some || s[i] == '='
}

/// `Engine::encode` of base64's standard engine: the base64 text of bytes. It
/// holds four characters of the alphabet, or of padding, for each three bytes
/// or fewer; that of sixteen bytes has the form that such texts have.
#[verifier::external_body]
fn encode_base64(bytes: &[u8]) -> (r: String)
    requires
        bytes@.len() <= 64,
    ensures
        r@ == base64_text(bytes@),
        r@.len() == 4 * ((bytes@.len() + 2) / 3),
        base64_chars(r@),
        bytes@.len() == 16 ==> encodes_sixteen_bytes(r@),
{
    STANDARD.encode(bytes)
}

/// `Engine::decode_slice` of base64's standard engine, into a buffer of
/// twenty-four bytes: the number of bytes that a text decodes to, if it does.
/// It is sixteen exactly for the base64 texts of sixteen bytes.
#[verifier::external_body]
fn decoded_len(value: &str) -> (r: Option<usize>)
    ensures
        (r == Some(16usize)) == encodes_sixteen_bytes(value@),
{
    STANDARD.decode_slice(value, &mut [0; 24]).ok()
}

/// `Digest::digest` of `Sha1`: the SHA-1 digest.
#[verifier::external_body]
fn sha1(bytes: &[u8]) -> (r: [u8; 20])
    ensures
        r@ == sha1_digest(bytes@),
{
    Sha1::digest(bytes).into()
}

/// The Sec-WebSocket-Accept value that answers a key.
pub open spec fn accept_key(key: Seq<char>) -> Seq<char> {
    base64_text(sha1_digest(encode_utf8(key) + encode_utf8(WS_GUID@)))
}

/// Generate the Sec-WebSocket-Accept key
///
/// This computes: Base64(SHA-1(key + GUID))
pub fn generate_accept_key(key: &str) -> (r: String)
    ensures
        r@ == accept_key(key@),
        r@.len() == 28,
        base64_chars(r@),
{
    let mut text: Vec<u8> = Vec::new();
    text.extend_from_slice(key.as_bytes());
    text.extend_from_slice(WS_GUID.as_bytes());
    assert(text@ =~= encode_utf8(key@) + encode_utf8(WS_GUID@));
    let digest = sha1(text.as_slice());
    encode_base64(&digest)
}

/// Validate the server's accept key (client-side)
pub fn validate_accept_key(sent_key: &str, received_accept: &str) -> (r: bool)
    ensures
        r == (received_accept@ == accept_key(sent_key@)),
{
    let expected = generate_accept_key(sent_key);
    same(expected.as_str(), received_accept)
}

/// The WebSocket key that sixteen bytes make
pub fn key_from_bytes(bytes: &[u8; 16]) -> (r: String)
    ensures
        r@ == base64_text(bytes@),
        encodes_sixteen_bytes(r@),
{
    encode_base64(bytes)
}

/// Generate a random WebSocket key (client-side).
pub fn generate_key() -> (r: String)
    ensures
        encodes_sixteen_bytes(r@),
        exists|bytes: Seq<u8>| bytes.len() == 16 && r@ == #[trigger] base64_text(bytes),
{
    let bytes = generate_key_bytes();
    let r = key_from_bytes(&bytes);
    assert(bytes@.len() == 16 && r@ == base64_text(bytes@));
    r
}

/// Whether a key encodes sixteen bytes.
pub fn is_valid_websocket_key(value: &str) -> (r: bool)
    ensures
        r == encodes_sixteen_bytes(value@),
{
    match decoded_len(value) {
        Some(n) => n == 16,
        None => false,
    }
}

// ---------------------------------------------------------------------------
// Writing
// ---------------------------------------------------------------------------

/// A header line.
pub open spec fn header_line(name: Seq<char>, value: Seq<char>) -> Seq<char> {
    name + ": "@ + value + "\r\n"@
}

/// A header line that may be missing.
pub open spec fn optional_line(name: Seq<char>, value: Option<Seq<char>>) -> Seq<char> {
    match value {
        Some(v) => header_line(name, v),
        None => seq![],
    }
}

/// Header lines in their order.
pub open spec fn header_lines(headers: Seq<(Seq<char>, Seq<char>)>) -> Seq<char>
    decreases headers.len(),
{
    if headers.len() == 0 {
        seq![]
    } else {
        header_lines(headers.drop_last()) + header_line(headers.last().0, headers.last().1)
    }
}

/// The text of an upgrade response.
pub open spec fn response_text(
    accept: Seq<char>,
    protocol: Option<Seq<char>>,
    extensions: Option<Seq<char>>,
) -> Seq<char> {
    "HTTP/1.1 101 Switching Protocols\r\n"@ + header_line("Upgrade"@, "websocket"@) + header_line(
        "Connection"@,
        "Upgrade"@,
    ) + header_line("Sec-WebSocket-Accept"@, accept) + optional_line(
        "Sec-WebSocket-Protocol"@,
        protocol,
    ) + optional_line("Sec-WebSocket-Extensions"@, extensions) + "\r\n"@
}

/// The text of an upgrade request.
pub open spec fn request_text(
    host: Seq<char>,
    path: Seq<char>,
    key: Seq<char>,
    protocol: Option<Seq<char>>,
    extensions: Option<Seq<char>>,
    extra: Seq<(Seq<char>, Seq<char>)>,
) -> Seq<char> {
    "GET "@ + path + " HTTP/1.1\r\n"@ + header_line("Host"@, host) + header_line(
        "Upgrade"@,
        "websocket"@,
    ) + header_line("Connection"@, "Upgrade"@) + header_line("Sec-WebSocket-Key"@, key)
        + header_line("Sec-WebSocket-Version"@, "13"@) + optional_line(
        "Sec-WebSocket-Protocol"@,
        protocol,
    ) + optional_line("Sec-WebSocket-Extensions"@, extensions) + header_lines(extra) + "\r\n"@
}

/// The text of an optional string slice.
pub open spec fn text_of(s: Option<&str>) -> Option<Seq<char>> {
    match s {
        Some(t) => Some(t@),
        None => None,
    }
}

/// The texts of header fields.
pub open spec fn header_views(headers: Seq<(String, String)>) -> Seq<(Seq<char>, Seq<char>)> {
    headers.map_values(|h: (String, String)| (h.0@, h.1@))
}

/// The texts of header fields that may be missing.
pub open spec fn extra_views(headers: Option<&[(String, String)]>) -> Seq<(Seq<char>, Seq<char>)> {
    match headers {
        Some(h) => header_views(h@),
        None => seq![],
    }
}

fn push_line(out: &mut String, name: &str, value: &str)
    ensures
        final(out)@ == old(out)@ + header_line(name@, value@),
{
    out.append(name);
    out.append(": ");
    out.append(value);
    out.append("\r\n");
    assert(out@ =~= old(out)@ + header_line(name@, value@));
}

fn push_optional_line(out: &mut String, name: &str, value: Option<&str>)
    ensures
        final(out)@ == old(out)@ + optional_line(name@, text_of(value)),
{
    match value {
        Some(v) => push_line(out, name, v),
        None => {
            assert(out@ =~= old(out)@ + seq![]);
        },
    }
}

/// Build a WebSocket upgrade response.
///
/// This raw builder does not validate its arguments. Callers must supply
/// values that follow the WebSocket handshake field grammar.
pub fn build_response(accept_key: &str, protocol: Option<&str>, extensions: Option<&str>) -> (r:
    Bytes)
    ensures
        r@ == encode_utf8(response_text(accept_key@, text_of(protocol), text_of(extensions))),
{
    let mut out = String::from_str("HTTP/1.1 101 Switching Protocols\r\n");
    push_line(&mut out, "Upgrade", "websocket");
    push_line(&mut out, "Connection", "Upgrade");
    push_line(&mut out, "Sec-WebSocket-Accept", accept_key);
    push_optional_line(&mut out, "Sec-WebSocket-Protocol", protocol);
    push_optional_line(&mut out, "Sec-WebSocket-Extensions", extensions);
    out.append("\r\n");
    bytes_from_string(out)
}

/// Build a WebSocket upgrade request (client-side).
///
/// This raw builder does not validate its arguments. Use
/// [`build_request_with_headers`] for externally supplied values.
pub fn build_request(
    host: &str,
    path: &str,
    key: &str,
    protocol: Option<&str>,
    extensions: Option<&str>,
) -> (r: Bytes)
    ensures
        r@ == encode_utf8(
            request_text(
                host@,
                path@,
                key@,
                text_of(protocol),
                text_of(extensions),
                seq![],
            ),
        ),
{
    build_request_inner(host, path, key, protocol, extensions, None)
}

fn build_request_inner(
    host: &str,
    path: &str,
    key: &str,
    protocol: Option<&str>,
    extensions: Option<&str>,
    extra_headers: Option<&[(String, String)]>,
) -> (r: Bytes)
    ensures
        r@ == encode_utf8(
            request_text(
                host@,
                path@,
                key@,
                text_of(protocol),
                text_of(extensions),
                extra_views(extra_headers),
            ),
        ),
{
    let mut out = String::from_str("GET ");
    out.append(path);
    out.append(" HTTP/1.1\r\n");
    push_line(&mut out, "Host", host);
    push_line(&mut out, "Upgrade", "websocket");
    push_line(&mut out, "Connection", "Upgrade");
    push_line(&mut out, "Sec-WebSocket-Key", key);
    push_line(&mut out, "Sec-WebSocket-Version", "13");
    push_optional_line(&mut out, "Sec-WebSocket-Protocol", protocol);
    push_optional_line(&mut out, "Sec-WebSocket-Extensions", extensions);
    match extra_headers {
        Some(headers) => push_headers(&mut out, headers),
        None => {
            assert(out@ =~= out@ + header_lines(seq![]));
        },
    }
    out.append("\r\n");
    bytes_from_string(out)
}

fn push_headers(out: &mut String, headers: &[(String, String)])
    ensures
        final(out)@ == old(out)@ + header_lines(header_views(headers@)),
{
    let ghost all = header_views(headers@);
    let mut i: usize = 0;
    proof {
        assert(all.take(0) =~= seq![]);
        assert(out@ =~= old(out)@ + header_lines(all.take(0)));
    }
    while i < headers.len()
        invariant
            i <= headers@.len(),
            all == header_views(headers@),
            out@ == old(out)@ + header_lines(all.take(i as int)),
        decreases headers@.len() - i,
    {
        let (name, value) = &headers[i];
        push_line(out, name.as_str(), value.as_str());
        proof {
            assert(all.take(i + 1).drop_last() =~= all.take(i as int));
            assert(all.take(i + 1).last() == (name@, value@));
            assert(out@ =~= old(out)@ + header_lines(all.take(i + 1)));
        }
        i = i + 1;
    }
    assert(all.take(i as int) =~= all);
}

/// Whether a name is one that the handshake itself writes, or that frames a body.
pub open spec fn reserved_header(name: Seq<char>) -> bool {
    ||| is_named(name, "host"@)
    ||| is_named(name, "upgrade"@)
    ||| is_named(name, "connection"@)
    ||| is_named(name, "sec-websocket-key"@)
    ||| is_named(name, "sec-websocket-version"@)
    ||| is_named(name, "sec-websocket-protocol"@)
    ||| is_named(name, "sec-websocket-extensions"@)
    ||| is_named(name, "content-length"@)
    ||| is_named(name, "transfer-encoding"@)
}

/// Whether a header has this name, in whatever case.
pub open spec fn is_named(name: Seq<char>, known: Seq<char>) -> bool {
    strings::lowered(name) == strings::lowered(known)
}

fn is_reserved_header(name: &str) -> (r: bool)
    ensures
        r == reserved_header(name@),
{
    eq_ignore_ascii_case(name, "host") || eq_ignore_ascii_case(name, "upgrade")
        || eq_ignore_ascii_case(name, "connection") || eq_ignore_ascii_case(
        name,
        "sec-websocket-key",
    ) || eq_ignore_ascii_case(name, "sec-websocket-version") || eq_ignore_ascii_case(
        name,
        "sec-websocket-protocol",
    ) || eq_ignore_ascii_case(name, "sec-websocket-extensions") || eq_ignore_ascii_case(
        name,
        "content-length",
    ) || eq_ignore_ascii_case(name, "transfer-encoding")
}

/// What is wrong with a header that a caller adds, if anything.
pub open spec fn extra_header_error(header: (Seq<char>, Seq<char>)) -> Option<Error> {
    if !grammar::token(header.0) {
        Some(Error::InvalidHttp("invalid header name"))
    } else if reserved_header(header.0) {
        Some(Error::InvalidHttp("reserved handshake header"))
    } else if !grammar::header_value(header.1) {
        Some(Error::InvalidHttp("invalid header value"))
    } else {
        None
    }
}

/// What is wrong with the headers that a caller adds: the first error counts.
pub open spec fn extra_headers_error(headers: Seq<(Seq<char>, Seq<char>)>) -> Option<Error>
    decreases headers.len(),
{
    if headers.len() == 0 {
        None
    } else if extra_header_error(headers[0]) is Some {
        extra_header_error(headers[0])
    } else {
        extra_headers_error(headers.drop_first())
    }
}

/// What is wrong with the fields of a request, if anything.
pub open spec fn request_fields_error(
    host: Seq<char>,
    path: Seq<char>,
    key: Seq<char>,
    protocol: Option<Seq<char>>,
    extensions: Option<Seq<char>>,
) -> Option<Error> {
    if !grammar::header_value(host) || host.len() == 0 {
        Some(Error::InvalidHttp("invalid Host"))
    } else if !grammar::request_target(path) {
        Some(Error::InvalidHttp("invalid request target"))
    } else if !encodes_sixteen_bytes(key) {
        Some(Error::InvalidHttp("invalid Sec-WebSocket-Key"))
    } else if protocol is Some && (!grammar::protocol_list(protocol->0) || grammar::lists_nothing(
        protocol->0,
    )) {
        Some(Error::InvalidHttp("invalid Sec-WebSocket-Protocol"))
    } else if extensions is Some && (!grammar::extension_list(extensions->0)
        || grammar::lists_nothing(extensions->0)) {
        Some(Error::InvalidHttp("invalid Sec-WebSocket-Extensions"))
    } else {
        None
    }
}

/// What is wrong with a request as a whole, if anything.
pub open spec fn request_error(
    host: Seq<char>,
    path: Seq<char>,
    key: Seq<char>,
    protocol: Option<Seq<char>>,
    extensions: Option<Seq<char>>,
    extra: Seq<(Seq<char>, Seq<char>)>,
) -> Option<Error> {
    match request_fields_error(host, path, key, protocol, extensions) {
        Some(e) => Some(e),
        None => extra_headers_error(extra),
    }
}

fn validate_request_fields(
    host: &str,
    path: &str,
    key: &str,
    protocol: Option<&str>,
    extensions: Option<&str>,
) -> (r: Result<()>)
    ensures
        match request_fields_error(host@, path@, key@, text_of(protocol), text_of(extensions)) {
            Some(e) => r == Err::<(), Error>(e),
            None => r is Ok,
        },
{
    if !is_header_value(host) || host.is_empty() {
        return Err(Error::InvalidHttp("invalid Host"));
    }
    if !is_request_target(path) {
        return Err(Error::InvalidHttp("invalid request target"));
    }
    if !is_valid_websocket_key(key) {
        return Err(Error::InvalidHttp("invalid Sec-WebSocket-Key"));
    }
    if let Some(protocol) = protocol {
        if !is_valid_protocol_list(protocol) || has_empty_element(protocol) {
            return Err(Error::InvalidHttp("invalid Sec-WebSocket-Protocol"));
        }
    }
    if let Some(extensions) = extensions {
        if !is_valid_extension_list(extensions) || has_empty_element(extensions) {
            return Err(Error::InvalidHttp("invalid Sec-WebSocket-Extensions"));
        }
    }
    Ok(())
}

fn validate_extra_headers(headers: &[(String, String)]) -> (r: Result<()>)
    ensures
        match extra_headers_error(header_views(headers@)) {
            Some(e) => r == Err::<(), Error>(e),
            None => r is Ok,
        },
{
    let ghost all = header_views(headers@);
    let mut i: usize = 0;
    proof {
        assert(all.skip(0) =~= all);
    }
    while i < headers.len()
        invariant
            i <= headers@.len(),
            all == header_views(headers@),
            extra_headers_error(all) == extra_headers_error(all.skip(i as int)),
        decreases headers@.len() - i,
    {
        let (name, value) = &headers[i];
        proof {
            assert(all.skip(i as int)[0] == (name@, value@));
            assert(all.skip(i as int).drop_first() =~= all.skip(i + 1));
        }
        if !is_token(name.as_str()) {
            return Err(Error::InvalidHttp("invalid header name"));
        }
        if is_reserved_header(name.as_str()) {
            return Err(Error::InvalidHttp("reserved handshake header"));
        }
        if !is_header_value(value.as_str()) {
            return Err(Error::InvalidHttp("invalid header value"));
        }
        i = i + 1;
    }
    Ok(())
}

/// Build a WebSocket upgrade request with additional HTTP headers.
///
/// Custom headers are emitted in the supplied order. Header names must use the
/// HTTP token syntax, values must not contain disallowed control bytes,
/// Host must be nonempty, the key must encode 16 bytes, and WebSocket protocol
/// and extension values must follow their handshake field grammar. Headers
/// managed by the WebSocket handshake and request body framing headers cannot
/// be supplied.
pub fn build_request_with_headers(
    host: &str,
    path: &str,
    key: &str,
    protocol: Option<&str>,
    extensions: Option<&str>,
    extra_headers: Option<&[(String, String)]>,
) -> (r: Result<Bytes>)
    ensures
        match request_error(
            host@,
            path@,
            key@,
            text_of(protocol),
            text_of(extensions),
            extra_views(extra_headers),
        ) {
            Some(e) => r == Err::<Bytes, Error>(e),
            None => r is Ok && r->Ok_0@ == encode_utf8(
                request_text(
                    host@,
                    path@,
                    key@,
                    text_of(protocol),
                    text_of(extensions),
                    extra_views(extra_headers),
                ),
            ),
        },
{
    match validate_request_fields(host, path, key, protocol, extensions) {
        Ok(()) => {},
        Err(e) => {
            return Err(e);
        },
    }
    if let Some(headers) = extra_headers {
        match validate_extra_headers(headers) {
            Ok(()) => {},
            Err(e) => {
                return Err(e);
            },
        }
    }
    Ok(build_request_inner(host, path, key, protocol, extensions, extra_headers))
}

// ---------------------------------------------------------------------------
// Request targets
// ---------------------------------------------------------------------------

/// The parts of a URI.
#[derive(Debug)]
pub struct UriParts {
    /// The scheme
    pub scheme: Option<String>,
    /// The authority, and the host in it
    pub authority: Option<(String, String)>,
    /// The path and the query
    pub path_and_query: Option<String>,
}

/// The parts of a URI as mathematical values.
#[verifier::ext_equal]
pub struct UriView {
    /// The scheme
    pub scheme: Option<Seq<char>>,
    /// The authority, and the host in it
    pub authority: Option<(Seq<char>, Seq<char>)>,
    /// The path and the query
    pub path_and_query: Option<Seq<char>>,
}

impl View for UriParts {
    type V = UriView;

    open spec fn view(&self) -> UriView {
        UriView {
            scheme: match self.scheme {
                Some(s) => Some(s@),
                None => None,
            },
            authority: match self.authority {
                Some((a, h)) => Some((a@, h@)),
                None => None,
            },
            path_and_query: match self.path_and_query {
                Some(p) => Some(p@),
                None => None,
            },
        }
    }
}

/// A character that stands in a path as it is.
pub open spec fn path_char(c: char) -> bool {
    ||| c == '!'
    ||| c == '"'
    ||| '$' <= c <= ';'
    ||| c == '='
    ||| '@' <= c <= '_'
    ||| 'a' <= c <= '~'
    ||| c >= '\u{80}'
}

/// A character that stands in a query as it is.
pub open spec fn query_char(c: char) -> bool {
    ||| c == '!'
    ||| '$' <= c <= ';'
    ||| c == '='
    ||| '?' <= c <= '~'
    ||| c >= '\u{80}'
}

/// Whether a text is a path, perhaps with a query, and no longer than a URI may be.
pub open spec fn path_and_query_text(s: Seq<char>) -> bool {
    let n = strings::prefix_len(s, '?');
    &&& s.len() > 0
    &&& s[0] == '/'
    &&& forall|i: int| 0 <= i < n ==> path_char(#[trigger] s[i])
    &&& forall|i: int| n < i < s.len() ==> query_char(#[trigger] s[i])
    &&& encode_utf8(s).len() <= 65534
}

/// The parts of a text that is a URI.
pub uninterp spec fn uri_parts(text: Seq<char>) -> Option<UriView>;

/// The parts of an optional URI as mathematical values.
pub open spec fn uri_view(uri: Option<UriParts>) -> Option<UriView> {
    match uri {
        Some(u) => Some(u@),
        None => None,
    }
}

/// `FromStr` of `http::Uri`, with the scheme, the authority, its host, and the
/// path and query of the result. A text that begins with a slash and has no
/// fragment is a URI exactly if it is a path, perhaps with a query; then that
/// is all it is.
#[verifier::external_body]
pub(crate) fn parse_uri(text: &str) -> (r: Option<UriParts>)
    ensures
        uri_view(r) == uri_parts(text@),
        text@.len() > 0 && text@[0] == '/' && !text@.contains('#') ==> uri_view(r) == (
        if path_and_query_text(text@) {
            Some(UriView { scheme: None, authority: None, path_and_query: Some(text@) })
        } else {
            None
        }),
{
    let uri = text.parse::<Uri>().ok()?;
    Some(
        UriParts {
            scheme: uri.scheme_str().map(str::to_owned),
            authority: uri.authority().map(|a| (a.as_str().to_owned(), a.host().to_owned())),
            path_and_query: uri.path_and_query().map(|p| p.as_str().to_owned()),
        },
    )
}

/// What follows the first `://` of a text.
pub open spec fn after_scheme(s: Seq<char>) -> Option<Seq<char>>
    decreases s.len(),
{
    if s.len() < 3 {
        None
    } else if s[0] == ':' && s[1] == '/' && s[2] == '/' {
        Some(s.skip(3))
    } else {
        after_scheme(s.skip(1))
    }
}

fn find_after_scheme<'a>(s: &'a str) -> (r: Option<&'a str>)
    ensures
        text_of(r) == after_scheme(s@),
{
    let chars = chars_of(s);
    let n = chars.len();
    let mut i: usize = 0;
    proof {
        assert(s@.skip(0) =~= s@);
    }
    while i < n && n - i >= 3
        invariant
            i <= n == chars@.len(),
            chars@ == s@,
            after_scheme(s@) == after_scheme(s@.skip(i as int)),
        decreases n - i,
    {
        let ghost here = s@.skip(i as int);
        if chars[i] == ':' && chars[i + 1] == '/' && chars[i + 2] == '/' {
            assert(here.skip(3) =~= s@.subrange(i + 3, n as int));
            return Some(s.substring_char(i + 3, n));
        }
        assert(here.skip(1) =~= s@.skip(i + 1));
        i = i + 1;
    }
    None
}

/// Whether a suffix of an authority is nothing or a port of digits.
pub open spec fn port_suffix(s: Seq<char>) -> bool {
    s.len() == 0 || (s[0] == ':' && forall|i: int|
        1 <= i < s.len() ==> '0' <= #[trigger] s[i] <= '9')
}

/// Whether a target is in origin form: a path with an optional query.
pub open spec fn origin_form(target: Seq<char>, uri: Option<UriView>) -> bool {
    &&& target.len() > 0
    &&& target[0] == '/'
    &&& grammar::percent_encoded(target)
    &&& uri matches Some(u) && u.scheme is None && u.authority is None && u.path_and_query == Some(
        target,
    )
}

/// The resource name and the effective authority of a request target, where
/// `uri` are the parts of the target.
///
/// A target in origin form is the resource name, and the Host header gives the
/// authority. A target in absolute form must be an HTTP or HTTPS URI with a
/// host, without user information, with a numeric port if any, and without a
/// fragment; an empty path is completed.
pub open spec fn target_of(target: Seq<char>, host: Seq<char>, uri: Option<UriView>) -> Option<
    (Seq<char>, Seq<char>),
> {
    if origin_form(target, uri) {
        Some((target, host))
    } else if uri is None || uri->0.scheme is None || uri->0.authority is None {
        None
    } else {
        let scheme = strings::lowered(uri->0.scheme->0);
        let (authority, name) = uri->0.authority->0;
        let rest = after_scheme(target);
        if scheme != strings::lowered("http"@) && scheme != strings::lowered("https"@) {
            None
        } else if name.len() == 0 || authority.contains('@') || name.len() > authority.len()
            || !port_suffix(authority.skip(name.len() as int)) {
            None
        } else if rest is None || !authority.is_prefix_of(rest->0) {
            None
        } else {
            let resource = rest->0.skip(authority.len() as int);
            if resource.contains('#') || !grammar::percent_encoded(resource) {
                None
            } else if resource.len() == 0 {
                Some(("/"@, authority))
            } else if resource[0] == '?' {
                Some(("/"@ + resource, authority))
            } else if uri->0.path_and_query == Some(resource) {
                Some((resource, authority))
            } else {
                None
            }
        }
    }
}

fn is_port_suffix(chars: &Vec<char>, from: usize) -> (r: bool)
    requires
        from <= chars@.len(),
    ensures
        r == port_suffix(chars@.skip(from as int)),
{
    let n = chars.len();
    let ghost suffix = chars@.skip(from as int);
    if from == n {
        return true;
    }
    if chars[from] != ':' {
        return false;
    }
    let mut i: usize = from + 1;
    while i < n
        invariant
            from < i <= n == chars@.len(),
            suffix == chars@.skip(from as int),
            suffix[0] == ':',
            forall|j: int| 1 <= j < i - from ==> '0' <= #[trigger] suffix[j] <= '9',
        decreases n - i,
    {
        assert(suffix[i - from] == chars@[i as int]);
        if !('0' <= chars[i] && chars[i] <= '9') {
            return false;
        }
        i = i + 1;
    }
    true
}

fn holds_char(s: &str, c: char) -> (r: bool)
    ensures
        r == s@.contains(c),
{
    let chars = chars_of(s);
    let mut i: usize = 0;
    while i < chars.len()
        invariant
            i <= chars@.len(),
            chars@ == s@,
            forall|j: int| 0 <= j < i ==> chars@[j] != c,
        decreases chars@.len() - i,
    {
        if chars[i] == c {
            assert(s@[i as int] == c);
            return true;
        }
        i = i + 1;
    }
    false
}

/// The string without a prefix that it begins with.
fn strip_prefix<'a>(s: &'a str, prefix: &str) -> (r: Option<(&'a str, &'a str)>)
    ensures
        match r {
            Some((head, tail)) => prefix@.is_prefix_of(s@) && head@ == prefix@ && tail@ == s@.skip(
                prefix@.len() as int,
            ),
            None => !prefix@.is_prefix_of(s@),
        },
{
    let x = chars_of(s);
    let p = chars_of(prefix);
    if p.len() > x.len() {
        return None;
    }
    let mut i: usize = 0;
    while i < p.len()
        invariant
            i <= p@.len() <= x@.len(),
            x@ == s@,
            p@ == prefix@,
            forall|j: int| 0 <= j < i ==> p@[j] == x@[j],
        decreases p@.len() - i,
    {
        if p[i] != x[i] {
            assert(s@.take(p@.len() as int)[i as int] != prefix@[i as int]);
            return None;
        }
        i = i + 1;
    }
    proof {
        assert(prefix@ =~= s@.take(p@.len() as int));
        assert(s@.subrange(0, p@.len() as int) =~= prefix@);
        assert(s@.subrange(p@.len() as int, x@.len() as int) =~= s@.skip(p@.len() as int));
    }
    Some((s.substring_char(0, p.len()), s.substring_char(p.len(), x.len())))
}

/// The resource name and the authority as mathematical values.
pub open spec fn resolved_view(r: Option<(Cow<str>, &str)>) -> Option<(Seq<char>, Seq<char>)> {
    match r {
        Some((path, host)) => Some((path@, host@)),
        None => None,
    }
}

/// The resource name and the effective authority of a request target, given
/// the parts of the target.
pub fn resolve_request_target<'a>(
    target: &'a str,
    header_host: &'a str,
    uri: &Option<UriParts>,
) -> (r: Option<(Cow<'a, str>, &'a str)>)
    ensures
        resolved_view(r) == target_of(target@, header_host@, uri_view(*uri)),
{
    let u = match uri {
        Some(u) => u,
        None => {
            return None;
        },
    };
    if is_origin_form(target, u) {
        return Some((Cow::Borrowed(target), header_host));
    }
    let scheme = match &u.scheme {
        Some(s) => s,
        None => {
            return None;
        },
    };
    let (authority, name) = match &u.authority {
        Some((a, h)) => (a, h),
        None => {
            return None;
        },
    };
    if !eq_ignore_ascii_case(scheme.as_str(), "http") && !eq_ignore_ascii_case(
        scheme.as_str(),
        "https",
    ) {
        return None;
    }
    if name.as_str().is_empty() || holds_char(authority.as_str(), '@') {
        return None;
    }
    let host_len = chars_of(name.as_str()).len();
    let authority_chars = chars_of(authority.as_str());
    if host_len > authority_chars.len() || !is_port_suffix(&authority_chars, host_len) {
        return None;
    }
    let rest = match find_after_scheme(target) {
        Some(rest) => rest,
        None => {
            return None;
        },
    };
    let (host, resource) = match strip_prefix(rest, authority.as_str()) {
        Some(pair) => pair,
        None => {
            return None;
        },
    };
    if holds_char(resource, '#') || !has_valid_percent_encoding(resource) {
        return None;
    }
    let chars = chars_of(resource);
    if chars.len() == 0 {
        return Some((Cow::Borrowed("/"), host));
    }
    if chars[0] == '?' {
        let mut path = String::from_str("/");
        path.append(resource);
        return Some((Cow::Owned(path), host));
    }
    match &u.path_and_query {
        Some(p) => {
            if same(p.as_str(), resource) {
                Some((Cow::Borrowed(resource), host))
            } else {
                None
            }
        },
        None => None,
    }
}

fn is_origin_form(target: &str, uri: &UriParts) -> (r: bool)
    ensures
        r == origin_form(target@, Some(uri@)),
{
    let chars = chars_of(target);
    if chars.len() == 0 || chars[0] != '/' || !has_valid_percent_encoding(target) {
        return false;
    }
    if uri.scheme.is_some() || uri.authority.is_some() {
        return false;
    }
    match &uri.path_and_query {
        Some(p) => same(p.as_str(), target),
        None => false,
    }
}

// ---------------------------------------------------------------------------
// Reading requests
// ---------------------------------------------------------------------------

/// The head of a request, split into its parts.
#[derive(Debug)]
pub struct RequestHead<'a> {
    /// The method
    pub method: Option<&'a str>,
    /// The request target
    pub path: Option<&'a str>,
    /// The minor version of HTTP/1
    pub version: Option<u8>,
    /// The header fields
    pub headers: Vec<(&'a str, &'a [u8])>,
    /// The length of the head
    pub len: usize,
}

/// The head of a request as mathematical values.
pub struct RequestHeadView {
    /// The method
    pub method: Option<Seq<char>>,
    /// The request target
    pub path: Option<Seq<char>>,
    /// The minor version of HTTP/1
    pub version: Option<u8>,
    /// The header fields
    pub headers: Seq<(Seq<char>, Seq<u8>)>,
    /// The length of the head
    pub len: nat,
}

/// Header fields as mathematical values.
pub open spec fn field_views(headers: Seq<(&str, &[u8])>) -> Seq<(Seq<char>, Seq<u8>)> {
    headers.map_values(|h: (&str, &[u8])| (h.0@, h.1@))
}

impl<'a> RequestHead<'a> {
    /// The head as mathematical values.
    pub open spec fn view(&self) -> RequestHeadView {
        RequestHeadView {
            method: text_of(self.method),
            path: text_of(self.path),
            version: self.version,
            headers: field_views(self.headers@),
            len: self.len as nat,
        }
    }
}

/// What splitting the head of a request comes to.
pub enum ParsedRequest<'a> {
    /// The head is complete
    Complete(RequestHead<'a>),
    /// More bytes are needed
    Partial,
    /// This is not a request
    Malformed,
}

/// What splitting the head of a request comes to, as mathematical values.
pub enum ParsedRequestView {
    /// The head is complete
    Complete(RequestHeadView),
    /// More bytes are needed
    Partial,
    /// This is not a request
    Malformed,
}

impl<'a> ParsedRequest<'a> {
    /// The outcome as mathematical values.
    pub open spec fn view(&self) -> ParsedRequestView {
        match self {
            ParsedRequest::Complete(head) => ParsedRequestView::Complete(head@),
            ParsedRequest::Partial => ParsedRequestView::Partial,
            ParsedRequest::Malformed => ParsedRequestView::Malformed,
        }
    }
}

/// The head of the HTTP/1 request at the start of `buf`, with at most
/// `max_headers` header fields.
pub uninterp spec fn request_head(buf: Seq<u8>, max_headers: nat) -> ParsedRequestView;

/// Whether a header field can be written: its name is a token, and its value
/// holds no control character but tabs.
pub open spec fn writable_field(f: (Seq<char>, Seq<char>)) -> bool {
    grammar::token(f.0) && grammar::header_value(f.1)
}

/// A header field as a reader gets it: without the blanks around the value.
pub open spec fn read_field(f: (Seq<char>, Seq<char>)) -> (Seq<char>, Seq<u8>) {
    (f.0, encode_utf8(strings::trimmed_ows(f.1)))
}

/// Header fields as a reader gets them.
pub open spec fn read_fields(fields: Seq<(Seq<char>, Seq<char>)>) -> Seq<(Seq<char>, Seq<u8>)> {
    fields.map_values(|f: (Seq<char>, Seq<char>)| read_field(f))
}

/// The text of a GET request without a body.
pub open spec fn request_lines(target: Seq<char>, fields: Seq<(Seq<char>, Seq<char>)>) -> Seq<
    char,
> {
    "GET "@ + target + " HTTP/1.1\r\n"@ + header_lines(fields) + "\r\n"@
}

/// Whether bytes begin with the text of a GET request that can be written.
pub open spec fn begins_with_request(
    buf: Seq<u8>,
    target: Seq<char>,
    fields: Seq<(Seq<char>, Seq<char>)>,
) -> bool {
    &&& target.len() > 0
    &&& grammar::request_target(target)
    &&& forall|i: int| 0 <= i < fields.len() ==> writable_field(#[trigger] fields[i])
    &&& encode_utf8(request_lines(target, fields)).is_prefix_of(buf)
}

/// The head of a GET request as a reader gets it.
pub open spec fn head_of_request(target: Seq<char>, fields: Seq<(Seq<char>, Seq<char>)>) -> RequestHeadView {
    RequestHeadView {
        method: Some("GET"@),
        path: Some(target),
        version: Some(1u8),
        headers: read_fields(fields),
        len: encode_utf8(request_lines(target, fields)).len(),
    }
}

/// `httparse::Request::parse`, with room for `max_headers` header fields. A
/// complete head lies within the bytes. Where the bytes begin with the text of
/// a GET request, of as many header fields at most, that is the head.
#[verifier::external_body]
fn split_request<'a>(buf: &'a [u8], max_headers: usize) -> (r: ParsedRequest<'a>)
    requires
        max_headers <= MAX_HEADERS,
    ensures
        r@ == request_head(buf@, max_headers as nat),
        r matches ParsedRequest::Complete(head) ==> head.len <= buf@.len(),
        forall|target: Seq<char>, fields: Seq<(Seq<char>, Seq<char>)>| #[trigger]
            begins_with_request(buf@, target, fields) && fields.len() <= max_headers ==> r@
                == ParsedRequestView::Complete(head_of_request(target, fields)),
{
    let mut headers = vec![httparse::EMPTY_HEADER; max_headers];
    let mut req = httparse::Request::new(&mut headers);
    let len = match req.parse(buf) {
        Ok(httparse::Status::Complete(len)) => len,
        Ok(httparse::Status::Partial) => return ParsedRequest::Partial,
        Err(_) => return ParsedRequest::Malformed,
    };
    let headers = req.headers.iter().map(|h| (h.name, h.value)).collect();
    let (method, path, version) = (req.method, req.path, req.version);
    ParsedRequest::Complete(RequestHead { method, path, version, headers, len })
}

/// WebSocket handshake request (server-side)
#[derive(Debug)]
pub struct HandshakeRequest<'a> {
    /// The resource name derived from the request target.
    ///
    /// Usually borrowed from the request; query-only absolute targets allocate
    /// a leading `/`. Use `path.as_ref()` when a borrowed `&str` is required.
    pub path: Cow<'a, str>,
    /// The effective authority from an absolute target or the Host header.
    /// A Host header is still required for absolute-form requests.
    pub host: Option<&'a str>,
    /// The Sec-WebSocket-Key header
    pub key: &'a str,
    /// The Sec-WebSocket-Version header
    pub version: &'a str,
    /// The Sec-WebSocket-Protocol header (optional)
    pub protocol: Option<&'a str>,
    /// The Sec-WebSocket-Extensions header (optional)
    pub extensions: Option<&'a str>,
    /// The Origin header (optional)
    pub origin: Option<&'a str>,
}

/// A handshake request as mathematical values.
#[verifier::ext_equal]
pub struct RequestView {
    /// The resource name
    pub path: Seq<char>,
    /// The effective authority
    pub host: Option<Seq<char>>,
    /// The Sec-WebSocket-Key header
    pub key: Seq<char>,
    /// The Sec-WebSocket-Version header
    pub version: Seq<char>,
    /// The Sec-WebSocket-Protocol header
    pub protocol: Option<Seq<char>>,
    /// The Sec-WebSocket-Extensions header
    pub extensions: Option<Seq<char>>,
    /// The Origin header
    pub origin: Option<Seq<char>>,
}

impl<'a> HandshakeRequest<'a> {
    /// The request as mathematical values.
    pub open spec fn view(&self) -> RequestView {
        RequestView {
            path: self.path@,
            host: text_of(self.host),
            key: self.key@,
            version: self.version@,
            protocol: text_of(self.protocol),
            extensions: text_of(self.extensions),
            origin: text_of(self.origin),
        }
    }
}

/// What the header fields of a request say.
#[verifier::ext_equal]
pub struct RequestFieldsView {
    /// Sec-WebSocket-Key
    pub key: Option<Seq<char>>,
    /// Sec-WebSocket-Version
    pub version: Option<Seq<char>>,
    /// Host
    pub host: Option<Seq<char>>,
    /// Sec-WebSocket-Protocol
    pub protocol: Option<Seq<char>>,
    /// Sec-WebSocket-Extensions
    pub extensions: Option<Seq<char>>,
    /// Origin
    pub origin: Option<Seq<char>>,
    /// Whether an Upgrade field lists websocket
    pub upgrade: bool,
    /// Whether a Connection field lists upgrade
    pub connection_upgrade: bool,
}

/// What no header fields say.
pub open spec fn no_request_fields() -> RequestFieldsView {
    RequestFieldsView {
        key: None,
        version: None,
        host: None,
        protocol: None,
        extensions: None,
        origin: None,
        upgrade: false,
        connection_upgrade: false,
    }
}

/// What one more header field says, or why it is refused.
pub open spec fn with_request_field(f: RequestFieldsView, name: Seq<char>, bytes: Seq<u8>) -> Result<
    RequestFieldsView,
> {
    let value = decode_utf8(bytes);
    if !valid_utf8(bytes) {
        Err(Error::InvalidHttp("invalid header value"))
    } else if is_named(name, "sec-websocket-key"@) {
        if f.key is Some {
            Err(Error::HandshakeFailed("duplicate Sec-WebSocket-Key"))
        } else {
            Ok(RequestFieldsView { key: Some(value), ..f })
        }
    } else if is_named(name, "sec-websocket-version"@) {
        if f.version is Some {
            Err(Error::HandshakeFailed("duplicate Sec-WebSocket-Version"))
        } else {
            Ok(RequestFieldsView { version: Some(value), ..f })
        }
    } else if is_named(name, "sec-websocket-protocol"@) {
        if !grammar::protocol_list(value) {
            Err(Error::HandshakeFailed("invalid Sec-WebSocket-Protocol"))
        } else {
            Ok(RequestFieldsView { protocol: Some(value), ..f })
        }
    } else if is_named(name, "sec-websocket-extensions"@) {
        if !grammar::extension_list(value) {
            Err(Error::HandshakeFailed("invalid Sec-WebSocket-Extensions"))
        } else {
            Ok(RequestFieldsView { extensions: Some(value), ..f })
        }
    } else if is_named(name, "host"@) {
        Ok(RequestFieldsView { host: Some(value), ..f })
    } else if is_named(name, "origin"@) {
        Ok(RequestFieldsView { origin: Some(value), ..f })
    } else if is_named(name, "upgrade"@) {
        Ok(
            RequestFieldsView {
                upgrade: f.upgrade || grammar::lists_word(value, "websocket"@),
                ..f
            },
        )
    } else if is_named(name, "connection"@) && grammar::lists_word(value, "upgrade"@) {
        Ok(RequestFieldsView { connection_upgrade: true, ..f })
    } else if is_named(name, "content-length"@) {
        if !grammar::zero_length(value) {
            Err(Error::InvalidHttp("WebSocket handshake must not contain a body"))
        } else {
            Ok(f)
        }
    } else if is_named(name, "transfer-encoding"@) {
        Err(Error::InvalidHttp("WebSocket handshake must not use Transfer-Encoding"))
    } else {
        Ok(f)
    }
}

/// What header fields say together, or why one is refused.
pub open spec fn request_fields(headers: Seq<(Seq<char>, Seq<u8>)>) -> Result<RequestFieldsView>
    decreases headers.len(),
{
    if headers.len() == 0 {
        Ok(no_request_fields())
    } else {
        match request_fields(headers.drop_last()) {
            Ok(f) => with_request_field(f, headers.last().0, headers.last().1),
            Err(e) => Err(e),
        }
    }
}

/// The handshake request that a head is, or why it is none, where `uri` are
/// the parts of the request target.
pub open spec fn request_of(head: RequestHeadView, uri: Option<UriView>) -> Result<RequestView> {
    if head.len > MAX_HEADER_SIZE {
        Err(Error::InvalidHttp("request too large"))
    } else if head.method != Some("GET"@) {
        Err(Error::InvalidHttp("method must be GET"))
    } else if head.version != Some(1u8) {
        Err(Error::InvalidHttp("HTTP version must be 1.1"))
    } else {
        match request_fields(head.headers) {
            Err(e) => Err(e),
            Ok(f) => if !f.upgrade {
                Err(Error::HandshakeFailed("missing Upgrade: websocket"))
            } else if !f.connection_upgrade {
                Err(Error::HandshakeFailed("missing Connection: Upgrade"))
            } else if f.key is None {
                Err(Error::HandshakeFailed("missing Sec-WebSocket-Key"))
            } else if f.version is None {
                Err(Error::HandshakeFailed("missing Sec-WebSocket-Version"))
            } else if f.host is None || f.host->0.len() == 0 {
                Err(Error::HandshakeFailed("missing Host"))
            } else if f.version->0 != "13"@ {
                Err(Error::HandshakeFailed("unsupported WebSocket version"))
            } else if !encodes_sixteen_bytes(f.key->0) {
                Err(Error::HandshakeFailed("invalid Sec-WebSocket-Key"))
            } else if head.path is None {
                Err(Error::InvalidHttp("missing request target"))
            } else {
                match target_of(head.path->0, f.host->0, uri) {
                    None => Err(Error::InvalidHttp("invalid request target")),
                    Some((path, host)) => Ok(
                        RequestView {
                            path,
                            host: Some(host),
                            key: f.key->0,
                            version: f.version->0,
                            protocol: f.protocol,
                            extensions: f.extensions,
                            origin: f.origin,
                        },
                    ),
                }
            },
        }
    }
}

/// The parts of a request target that may be missing.
pub open spec fn target_uri(path: Option<Seq<char>>) -> Option<UriView> {
    match path {
        Some(target) => uri_parts(target),
        None => None,
    }
}

/// The beginning of `buf` in which a head must lie. One byte more than a head
/// may have tells an oversized one.
pub open spec fn head_part(buf: Seq<u8>) -> Seq<u8> {
    if buf.len() > MAX_HEADER_SIZE + 1 {
        buf.take(MAX_HEADER_SIZE + 1)
    } else {
        buf
    }
}

/// The handshake request at the start of `buf` with its length, or why there
/// is none; nothing where more bytes are needed.
pub open spec fn read_request(buf: Seq<u8>) -> Result<Option<(RequestView, nat)>> {
    match request_head(head_part(buf), MAX_HEADERS as nat) {
        ParsedRequestView::Complete(head) => match request_of(head, target_uri(head.path)) {
            Ok(request) => Ok(Some((request, head.len))),
            Err(e) => Err(e),
        },
        ParsedRequestView::Partial => if buf.len() > MAX_HEADER_SIZE {
            Err(Error::InvalidHttp("request too large"))
        } else {
            Ok(None)
        },
        ParsedRequestView::Malformed => Err(Error::InvalidHttp("failed to parse HTTP request")),
    }
}

/// A text without blanks at its ends.
pub open spec fn unpadded(s: Seq<char>) -> bool {
    strings::trimmed_ows(s) == s
}

/// Whether a text that may be missing has no blanks at its ends.
pub open spec fn optional_unpadded(s: Option<Seq<char>>) -> bool {
    s matches Some(t) ==> unpadded(t)
}

/// A header field that may be missing.
pub open spec fn optional_pair(name: Seq<char>, value: Option<Seq<char>>) -> Seq<
    (Seq<char>, Seq<char>),
> {
    match value {
        Some(v) => seq![(name, v)],
        None => seq![],
    }
}

/// The last origin among header fields.
pub open spec fn last_origin(fields: Seq<(Seq<char>, Seq<char>)>) -> Option<Seq<char>>
    decreases fields.len(),
{
    if fields.len() == 0 {
        None
    } else if is_named(fields.last().0, "origin"@) {
        Some(fields.last().1)
    } else {
        last_origin(fields.drop_last())
    }
}

/// What a client puts into a request.
pub struct WrittenRequest {
    /// The Host header
    pub host: Seq<char>,
    /// The request target
    pub path: Seq<char>,
    /// The Sec-WebSocket-Key header
    pub key: Seq<char>,
    /// The Sec-WebSocket-Protocol header
    pub protocol: Option<Seq<char>>,
    /// The Sec-WebSocket-Extensions header
    pub extensions: Option<Seq<char>>,
    /// The headers that its user adds
    pub extra: Seq<(Seq<char>, Seq<char>)>,
}

impl WrittenRequest {
    /// The text of the request.
    pub open spec fn text(self) -> Seq<char> {
        request_text(
            self.host,
            self.path,
            self.key,
            self.protocol,
            self.extensions,
            self.extra,
        )
    }

    /// The header fields in their order.
    pub open spec fn fields(self) -> Seq<(Seq<char>, Seq<char>)> {
        seq![
            ("Host"@, self.host),
            ("Upgrade"@, "websocket"@),
            ("Connection"@, "Upgrade"@),
            ("Sec-WebSocket-Key"@, self.key),
            ("Sec-WebSocket-Version"@, "13"@),
        ] + optional_pair("Sec-WebSocket-Protocol"@, self.protocol) + optional_pair(
            "Sec-WebSocket-Extensions"@,
            self.extensions,
        ) + self.extra
    }

    /// Whether a server can read it back as it is: the checked builder writes
    /// it, it asks for a path, no text of it has blanks at its ends, and it is
    /// no larger than a server takes.
    pub open spec fn deliverable(self) -> bool {
        &&& request_error(
            self.host,
            self.path,
            self.key,
            self.protocol,
            self.extensions,
            self.extra,
        ) is None
        &&& path_and_query_text(self.path)
        &&& !self.path.contains('#')
        &&& grammar::percent_encoded(self.path)
        &&& unpadded(self.host)
        &&& optional_unpadded(self.protocol)
        &&& optional_unpadded(self.extensions)
        &&& self.fields().len() <= MAX_HEADERS
        &&& encode_utf8(self.text()).len() <= MAX_HEADER_SIZE
    }

    /// Whether bytes begin with this request, and a server can read it back.
    pub open spec fn begins(self, buf: Seq<u8>) -> bool {
        self.deliverable() && encode_utf8(self.text()).is_prefix_of(buf)
    }

    /// What a server reads.
    pub open spec fn as_read(self) -> RequestView {
        RequestView {
            path: self.path,
            host: Some(self.host),
            key: self.key,
            version: "13"@,
            protocol: self.protocol,
            extensions: self.extensions,
            origin: match last_origin(self.extra) {
                Some(origin) => Some(strings::trimmed_ows(origin)),
                None => None,
            },
        }
    }
}

/// Whether a request that a client has written to the beginning of `buf` is
/// read back.
pub open spec fn reads_back_requests(buf: Seq<u8>) -> bool {
    forall|w: WrittenRequest| #[trigger]
        w.begins(buf) ==> read_request(buf) == Ok::<Option<(RequestView, nat)>, Error>(
            Some((w.as_read(), encode_utf8(w.text()).len())),
        )
}

struct RequestFields<'a> {
    key: Option<&'a str>,
    version: Option<&'a str>,
    host: Option<&'a str>,
    protocol: Option<&'a str>,
    extensions: Option<&'a str>,
    origin: Option<&'a str>,
    upgrade: bool,
    connection_upgrade: bool,
}

impl<'a> RequestFields<'a> {
    spec fn view(&self) -> RequestFieldsView {
        RequestFieldsView {
            key: text_of(self.key),
            version: text_of(self.version),
            host: text_of(self.host),
            protocol: text_of(self.protocol),
            extensions: text_of(self.extensions),
            origin: text_of(self.origin),
            upgrade: self.upgrade,
            connection_upgrade: self.connection_upgrade,
        }
    }

    fn add(&mut self, name: &'a str, bytes: &'a [u8]) -> (r: Result<()>)
        ensures
            match with_request_field(old(self)@, name@, bytes@) {
                Ok(f) => r is Ok && final(self)@ == f,
                Err(e) => r == Err::<(), Error>(e),
            },
    {
        let value = match utf8::checked_str(bytes) {
            Some(value) => value,
            None => {
                return Err(Error::InvalidHttp("invalid header value"));
            },
        };
        proof {
            encode_utf8_decode_utf8(value@);
        }
        if eq_ignore_ascii_case(name, "sec-websocket-key") {
            if self.key.is_some() {
                return Err(Error::HandshakeFailed("duplicate Sec-WebSocket-Key"));
            }
            self.key = Some(value);
        } else if eq_ignore_ascii_case(name, "sec-websocket-version") {
            if self.version.is_some() {
                return Err(Error::HandshakeFailed("duplicate Sec-WebSocket-Version"));
            }
            self.version = Some(value);
        } else if eq_ignore_ascii_case(name, "sec-websocket-protocol") {
            if !is_valid_protocol_list(value) {
                return Err(Error::HandshakeFailed("invalid Sec-WebSocket-Protocol"));
            }
            self.protocol = Some(value);
        } else if eq_ignore_ascii_case(name, "sec-websocket-extensions") {
            if !is_valid_extension_list(value) {
                return Err(Error::HandshakeFailed("invalid Sec-WebSocket-Extensions"));
            }
            self.extensions = Some(value);
        } else if eq_ignore_ascii_case(name, "host") {
            self.host = Some(value);
        } else if eq_ignore_ascii_case(name, "origin") {
            self.origin = Some(value);
        } else if eq_ignore_ascii_case(name, "upgrade") {
            if has_token_ignore_case(value, "websocket") {
                self.upgrade = true;
            }
        } else if eq_ignore_ascii_case(name, "connection") && has_token_ignore_case(
            value,
            "upgrade",
        ) {
            self.connection_upgrade = true;
        } else if eq_ignore_ascii_case(name, "content-length") {
            if !is_zero_content_length(value) {
                return Err(Error::InvalidHttp("WebSocket handshake must not contain a body"));
            }
        } else if eq_ignore_ascii_case(name, "transfer-encoding") {
            return Err(Error::InvalidHttp("WebSocket handshake must not use Transfer-Encoding"));
        }
        Ok(())
    }
}

proof fn lemma_request_fields_error(headers: Seq<(Seq<char>, Seq<u8>)>, i: int)
    requires
        0 <= i <= headers.len(),
        request_fields(headers.take(i)) is Err,
    ensures
        request_fields(headers) == request_fields(headers.take(i)),
    decreases headers.len(),
{
    if i == headers.len() {
        assert(headers.take(i) =~= headers);
    } else {
        assert(headers.drop_last().take(i) =~= headers.take(i));
        lemma_request_fields_error(headers.drop_last(), i);
    }
}

fn read_request_fields<'a>(headers: &Vec<(&'a str, &'a [u8])>) -> (r: Result<RequestFields<'a>>)
    ensures
        match request_fields(field_views(headers@)) {
            Ok(f) => r is Ok && r->Ok_0@ == f,
            Err(e) => r is Err && r->Err_0 == e,
        },
{
    let mut fields = RequestFields {
        key: None,
        version: None,
        host: None,
        protocol: None,
        extensions: None,
        origin: None,
        upgrade: false,
        connection_upgrade: false,
    };
    let ghost all = field_views(headers@);
    let mut i: usize = 0;
    proof {
        assert(all.take(0) =~= seq![]);
        assert(fields@ =~= no_request_fields());
    }
    while i < headers.len()
        invariant
            i <= headers@.len(),
            all == field_views(headers@),
            request_fields(all.take(i as int)) == Ok::<RequestFieldsView, Error>(fields@),
        decreases headers@.len() - i,
    {
        let (name, value) = headers[i];
        proof {
            assert(all.take(i + 1).drop_last() =~= all.take(i as int));
            assert(all.take(i + 1).last() == (name@, value@));
        }
        match fields.add(name, value) {
            Ok(()) => {},
            Err(e) => {
                proof {
                    lemma_request_fields_error(all, i + 1);
                }
                return Err(e);
            },
        }
        i = i + 1;
    }
    assert(all.take(i as int) =~= all);
    Ok(fields)
}

/// The outcome of reading a request as mathematical values.
pub open spec fn request_outcome(r: Result<HandshakeRequest>) -> Result<RequestView> {
    match r {
        Ok(request) => Ok(request@),
        Err(e) => Err(e),
    }
}

/// The handshake request that a head is, given the parts of its target.
pub fn check_request<'a>(head: &RequestHead<'a>, uri: &Option<UriParts>) -> (r: Result<
    HandshakeRequest<'a>,
>)
    ensures
        request_outcome(r) == request_of(head@, uri_view(*uri)),
{
    if head.len > MAX_HEADER_SIZE {
        return Err(Error::InvalidHttp("request too large"));
    }
    // Validate HTTP method and version

    let is_get = match head.method {
        Some(method) => same(method, "GET"),
        None => false,
    };
    if !is_get {
        return Err(Error::InvalidHttp("method must be GET"));
    }
    if head.version != Some(1u8) {
        return Err(Error::InvalidHttp("HTTP version must be 1.1"));
    }
    let fields = match read_request_fields(&head.headers) {
        Ok(fields) => fields,
        Err(e) => {
            return Err(e);
        },
    };

    // Validate required headers
    if !fields.upgrade {
        return Err(Error::HandshakeFailed("missing Upgrade: websocket"));
    }
    if !fields.connection_upgrade {
        return Err(Error::HandshakeFailed("missing Connection: Upgrade"));
    }
    let key = match fields.key {
        Some(key) => key,
        None => {
            return Err(Error::HandshakeFailed("missing Sec-WebSocket-Key"));
        },
    };
    let version = match fields.version {
        Some(version) => version,
        None => {
            return Err(Error::HandshakeFailed("missing Sec-WebSocket-Version"));
        },
    };
    let header_host = match fields.host {
        Some(host) => host,
        None => {
            return Err(Error::HandshakeFailed("missing Host"));
        },
    };
    if header_host.is_empty() {
        return Err(Error::HandshakeFailed("missing Host"));
    }
    if !same(version, "13") {
        return Err(Error::HandshakeFailed("unsupported WebSocket version"));
    }
    if !is_valid_websocket_key(key) {
        return Err(Error::HandshakeFailed("invalid Sec-WebSocket-Key"));
    }
    let target = match head.path {
        Some(target) => target,
        None => {
            return Err(Error::InvalidHttp("missing request target"));
        },
    };
    match resolve_request_target(target, header_host, uri) {
        Some((path, host)) => {
            let request = HandshakeRequest {
                path,
                host: Some(host),
                key,
                version,
                protocol: fields.protocol,
                extensions: fields.extensions,
                origin: fields.origin,
            };
            Ok(request)
        },
        None => Err(Error::InvalidHttp("invalid request target")),
    }
}

fn head_slice(buf: &[u8]) -> (r: &[u8])
    ensures
        r@ == head_part(buf@),
{
    if buf.len() > MAX_HEADER_SIZE + 1 {
        let (head, _rest) = buf.split_at(MAX_HEADER_SIZE + 1);
        assert(head@ =~= head_part(buf@));
        head
    } else {
        buf
    }
}

/// Parse a WebSocket upgrade request
///
/// Returns the parsed request and the number of bytes consumed.
///
/// Accepts origin-form and absolute HTTP/HTTPS targets. Path and query characters
/// follow `http::Uri`'s compatibility rules (including raw UTF-8 and JSON path
/// characters), with an additional requirement that percent escapes contain two
/// hexadecimal digits. Fragments, unsupported target forms or schemes, userinfo,
/// empty absolute hosts and nonnumeric ports are rejected. A Host header remains
/// required even when the absolute target supplies the effective authority.
///
/// What a client has written with the checked builder is read back.
pub fn parse_request<'a>(buf: &'a [u8]) -> (r: Result<Option<(HandshakeRequest<'a>, usize)>>)
    ensures
        match read_request(buf@) {
            Ok(Some((request, len))) => r matches Ok(Some((got, n))) && got@ == request && n == len
                && n <= buf@.len(),
            Ok(None) => r matches Ok(None),
            Err(e) => r matches Err(got) && got == e,
        },
        reads_back_requests(buf@),
{
    let parsed = split_request(head_slice(buf), MAX_HEADERS);
    proof {
        assert forall|w: WrittenRequest| #[trigger] w.begins(buf@) implies parsed@
            == ParsedRequestView::Complete(head_of_request(w.path, w.fields())) by {
            handshake_laws::lemma_request_begins(w, buf@);
        }
    }
    match parsed {
        ParsedRequest::Complete(head) => {
            let uri = match head.path {
                Some(target) => parse_uri(target),
                None => None,
            };
            proof {
                assert forall|w: WrittenRequest| #[trigger] w.begins(buf@) implies read_request(
                    buf@,
                ) == Ok::<Option<(RequestView, nat)>, Error>(
                    Some((w.as_read(), encode_utf8(w.text()).len())),
                ) by {
                    assert(head@ == head_of_request(w.path, w.fields()));
                    assert(head.path->0@ == w.path);
                    handshake_laws::lemma_written_request_is_read(w, uri_view(uri));
                }
            }
            match check_request(&head, &uri) {
                Ok(request) => Ok(Some((request, head.len))),
                Err(e) => Err(e),
            }
        },
        ParsedRequest::Partial => {
            if buf.len() > MAX_HEADER_SIZE {
                Err(Error::InvalidHttp("request too large"))
            } else {
                Ok(None)
            }
        },
        ParsedRequest::Malformed => Err(Error::InvalidHttp("failed to parse HTTP request")),
    }
}

// ---------------------------------------------------------------------------
// Reading responses
// ---------------------------------------------------------------------------

/// The head of a response, split into its parts.
#[derive(Debug)]
pub struct ResponseHead<'a> {
    /// The status code
    pub code: Option<u16>,
    /// The minor version of HTTP/1
    pub version: Option<u8>,
    /// The header fields
    pub headers: Vec<(&'a str, &'a [u8])>,
    /// The length of the head
    pub len: usize,
}

/// The head of a response as mathematical values.
pub struct ResponseHeadView {
    /// The status code
    pub code: Option<u16>,
    /// The minor version of HTTP/1
    pub version: Option<u8>,
    /// The header fields
    pub headers: Seq<(Seq<char>, Seq<u8>)>,
    /// The length of the head
    pub len: nat,
}

impl<'a> ResponseHead<'a> {
    /// The head as mathematical values.
    pub open spec fn view(&self) -> ResponseHeadView {
        ResponseHeadView {
            code: self.code,
            version: self.version,
            headers: field_views(self.headers@),
            len: self.len as nat,
        }
    }
}

/// What splitting the head of a response comes to.
pub enum ParsedResponse<'a> {
    /// The head is complete
    Complete(ResponseHead<'a>),
    /// More bytes are needed
    Partial,
    /// This is not a response
    Malformed,
}

/// What splitting the head of a response comes to, as mathematical values.
pub enum ParsedResponseView {
    /// The head is complete
    Complete(ResponseHeadView),
    /// More bytes are needed
    Partial,
    /// This is not a response
    Malformed,
}

impl<'a> ParsedResponse<'a> {
    /// The outcome as mathematical values.
    pub open spec fn view(&self) -> ParsedResponseView {
        match self {
            ParsedResponse::Complete(head) => ParsedResponseView::Complete(head@),
            ParsedResponse::Partial => ParsedResponseView::Partial,
            ParsedResponse::Malformed => ParsedResponseView::Malformed,
        }
    }
}

/// The head of the HTTP/1 response at the start of `buf`, with at most
/// `max_headers` header fields.
pub uninterp spec fn response_head(buf: Seq<u8>, max_headers: nat) -> ParsedResponseView;

/// The text of a response that switches protocols.
pub open spec fn response_lines(fields: Seq<(Seq<char>, Seq<char>)>) -> Seq<char> {
    "HTTP/1.1 101 Switching Protocols\r\n"@ + header_lines(fields) + "\r\n"@
}

/// Whether bytes begin with the text of a response that switches protocols and
/// can be written.
pub open spec fn begins_with_response(buf: Seq<u8>, fields: Seq<(Seq<char>, Seq<char>)>) -> bool {
    &&& forall|i: int| 0 <= i < fields.len() ==> writable_field(#[trigger] fields[i])
    &&& encode_utf8(response_lines(fields)).is_prefix_of(buf)
}

/// The head of a response that switches protocols as a reader gets it.
pub open spec fn head_of_response(fields: Seq<(Seq<char>, Seq<char>)>) -> ResponseHeadView {
    ResponseHeadView {
        code: Some(101u16),
        version: Some(1u8),
        headers: read_fields(fields),
        len: encode_utf8(response_lines(fields)).len(),
    }
}

/// `httparse::Response::parse`, with room for `max_headers` header fields. A
/// complete head lies within the bytes. Where the bytes begin with the text of
/// a response that switches protocols, of as many header fields at most, that
/// is the head.
#[verifier::external_body]
fn split_response<'a>(buf: &'a [u8], max_headers: usize) -> (r: ParsedResponse<'a>)
    requires
        max_headers <= MAX_HEADERS,
    ensures
        r@ == response_head(buf@, max_headers as nat),
        r matches ParsedResponse::Complete(head) ==> head.len <= buf@.len(),
        forall|fields: Seq<(Seq<char>, Seq<char>)>| #[trigger]
            begins_with_response(buf@, fields) && fields.len() <= max_headers ==> r@
                == ParsedResponseView::Complete(head_of_response(fields)),
{
    let mut headers = vec![httparse::EMPTY_HEADER; max_headers];
    let mut res = httparse::Response::new(&mut headers);
    let len = match res.parse(buf) {
        Ok(httparse::Status::Complete(len)) => len,
        Ok(httparse::Status::Partial) => return ParsedResponse::Partial,
        Err(_) => return ParsedResponse::Malformed,
    };
    let headers = res.headers.iter().map(|h| (h.name, h.value)).collect();
    ParsedResponse::Complete(ResponseHead { code: res.code, version: res.version, headers, len })
}

/// WebSocket handshake response (client-side parsing)
#[derive(Debug)]
pub struct HandshakeResponse<'a> {
    /// HTTP status code
    pub status: u16,
    /// The Sec-WebSocket-Accept header
    pub accept: Option<&'a str>,
    /// The Sec-WebSocket-Protocol header
    pub protocol: Option<&'a str>,
    /// The Sec-WebSocket-Extensions header
    pub extensions: Option<&'a str>,
}

/// A handshake response as mathematical values.
#[verifier::ext_equal]
pub struct ResponseView {
    /// HTTP status code
    pub status: u16,
    /// The Sec-WebSocket-Accept header
    pub accept: Option<Seq<char>>,
    /// The Sec-WebSocket-Protocol header
    pub protocol: Option<Seq<char>>,
    /// The Sec-WebSocket-Extensions header
    pub extensions: Option<Seq<char>>,
}

impl<'a> HandshakeResponse<'a> {
    /// The response as mathematical values.
    pub open spec fn view(&self) -> ResponseView {
        ResponseView {
            status: self.status,
            accept: text_of(self.accept),
            protocol: text_of(self.protocol),
            extensions: text_of(self.extensions),
        }
    }
}

/// What the header fields of a response say.
#[verifier::ext_equal]
pub struct ResponseFieldsView {
    /// Sec-WebSocket-Accept
    pub accept: Option<Seq<char>>,
    /// Sec-WebSocket-Protocol
    pub protocol: Option<Seq<char>>,
    /// Sec-WebSocket-Extensions
    pub extensions: Option<Seq<char>>,
    /// Whether an Upgrade field is websocket
    pub upgrade: bool,
    /// Whether a Connection field lists upgrade
    pub connection_upgrade: bool,
}

/// What no header fields say.
pub open spec fn no_response_fields() -> ResponseFieldsView {
    ResponseFieldsView {
        accept: None,
        protocol: None,
        extensions: None,
        upgrade: false,
        connection_upgrade: false,
    }
}

/// What one more header field says, or why it is refused.
pub open spec fn with_response_field(
    f: ResponseFieldsView,
    name: Seq<char>,
    bytes: Seq<u8>,
) -> Result<ResponseFieldsView> {
    let value = decode_utf8(bytes);
    if !valid_utf8(bytes) {
        Err(Error::InvalidHttp("invalid header value"))
    } else if is_named(name, "sec-websocket-accept"@) {
        if f.accept is Some {
            Err(Error::HandshakeFailed("duplicate Sec-WebSocket-Accept"))
        } else {
            Ok(ResponseFieldsView { accept: Some(value), ..f })
        }
    } else if is_named(name, "sec-websocket-protocol"@) {
        if f.protocol is Some {
            Err(Error::HandshakeFailed("duplicate Sec-WebSocket-Protocol"))
        } else if !grammar::token(value) {
            Err(Error::HandshakeFailed("invalid Sec-WebSocket-Protocol"))
        } else {
            Ok(ResponseFieldsView { protocol: Some(value), ..f })
        }
    } else if is_named(name, "sec-websocket-extensions"@) {
        if f.extensions is Some {
            Err(Error::HandshakeFailed("duplicate Sec-WebSocket-Extensions"))
        } else if !grammar::extension_list(value) {
            Err(Error::HandshakeFailed("invalid Sec-WebSocket-Extensions"))
        } else {
            Ok(ResponseFieldsView { extensions: Some(value), ..f })
        }
    } else if is_named(name, "upgrade"@) {
        // An exact value, unlike the list of a request.
        if strings::lowered(value) != strings::lowered("websocket"@) {
            Err(Error::HandshakeFailed("missing Upgrade: websocket"))
        } else {
            Ok(ResponseFieldsView { upgrade: true, ..f })
        }
    } else if is_named(name, "connection"@) {
        Ok(
            ResponseFieldsView {
                connection_upgrade: f.connection_upgrade || grammar::lists_word(
                    value,
                    "upgrade"@,
                ),
                ..f
            },
        )
    } else {
        Ok(f)
    }
}

/// What header fields say together, or why one is refused.
pub open spec fn response_fields(headers: Seq<(Seq<char>, Seq<u8>)>) -> Result<ResponseFieldsView>
    decreases headers.len(),
{
    if headers.len() == 0 {
        Ok(no_response_fields())
    } else {
        match response_fields(headers.drop_last()) {
            Ok(f) => with_response_field(f, headers.last().0, headers.last().1),
            Err(e) => Err(e),
        }
    }
}

/// The handshake response that a head is, or why it is none.
pub open spec fn response_of(head: ResponseHeadView) -> Result<ResponseView> {
    if head.len > MAX_HEADER_SIZE {
        Err(Error::InvalidHttp("response too large"))
    } else if head.code != Some(101u16) {
        Err(Error::HandshakeFailed("expected 101 Switching Protocols"))
    } else if head.version != Some(1u8) {
        Err(Error::InvalidHttp("HTTP version must be 1.1"))
    } else {
        match response_fields(head.headers) {
            Err(e) => Err(e),
            Ok(f) => if !f.upgrade {
                Err(Error::HandshakeFailed("missing Upgrade: websocket"))
            } else if !f.connection_upgrade {
                Err(Error::HandshakeFailed("missing Connection: Upgrade"))
            } else {
                Ok(
                    ResponseView {
                        status: 101,
                        accept: f.accept,
                        protocol: f.protocol,
                        extensions: f.extensions,
                    },
                )
            },
        }
    }
}

/// The handshake response at the start of `buf` with its length, or why there
/// is none; nothing where more bytes are needed.
pub open spec fn read_response(buf: Seq<u8>) -> Result<Option<(ResponseView, nat)>> {
    match response_head(head_part(buf), MAX_HEADERS as nat) {
        ParsedResponseView::Complete(head) => match response_of(head) {
            Ok(response) => Ok(Some((response, head.len))),
            Err(e) => Err(e),
        },
        ParsedResponseView::Partial => if buf.len() > MAX_HEADER_SIZE {
            Err(Error::InvalidHttp("response too large"))
        } else {
            Ok(None)
        },
        ParsedResponseView::Malformed => Err(Error::InvalidHttp("failed to parse HTTP response")),
    }
}

/// What a server puts into a response.
pub struct WrittenResponse {
    /// The Sec-WebSocket-Accept header
    pub accept: Seq<char>,
    /// The Sec-WebSocket-Protocol header
    pub protocol: Option<Seq<char>>,
    /// The Sec-WebSocket-Extensions header
    pub extensions: Option<Seq<char>>,
}

impl WrittenResponse {
    /// The text of the response.
    pub open spec fn text(self) -> Seq<char> {
        response_text(self.accept, self.protocol, self.extensions)
    }

    /// The header fields in their order.
    pub open spec fn fields(self) -> Seq<(Seq<char>, Seq<char>)> {
        seq![
            ("Upgrade"@, "websocket"@),
            ("Connection"@, "Upgrade"@),
            ("Sec-WebSocket-Accept"@, self.accept),
        ] + optional_pair("Sec-WebSocket-Protocol"@, self.protocol) + optional_pair(
            "Sec-WebSocket-Extensions"@,
            self.extensions,
        )
    }

    /// Whether a client can read it back as it is: the accept key is one, the
    /// fields follow their grammar, no text has blanks at its ends, and it is no
    /// larger than a client takes.
    pub open spec fn deliverable(self) -> bool {
        &&& base64_chars(self.accept)
        &&& self.protocol matches Some(p) ==> grammar::token(p)
        &&& self.extensions matches Some(e) ==> grammar::extension_list(e)
        &&& optional_unpadded(self.extensions)
        &&& encode_utf8(self.text()).len() <= MAX_HEADER_SIZE
    }

    /// Whether bytes begin with this response, and a client can read it back.
    pub open spec fn begins(self, buf: Seq<u8>) -> bool {
        self.deliverable() && encode_utf8(self.text()).is_prefix_of(buf)
    }

    /// What a client reads.
    pub open spec fn as_read(self) -> ResponseView {
        ResponseView {
            status: 101,
            accept: Some(self.accept),
            protocol: self.protocol,
            extensions: self.extensions,
        }
    }
}

/// Whether a response that a server has written to the beginning of `buf` is
/// read back.
pub open spec fn reads_back_responses(buf: Seq<u8>) -> bool {
    forall|w: WrittenResponse| #[trigger]
        w.begins(buf) ==> read_response(buf) == Ok::<Option<(ResponseView, nat)>, Error>(
            Some((w.as_read(), encode_utf8(w.text()).len())),
        )
}

struct ResponseFields<'a> {
    accept: Option<&'a str>,
    protocol: Option<&'a str>,
    extensions: Option<&'a str>,
    upgrade: bool,
    connection_upgrade: bool,
}

impl<'a> ResponseFields<'a> {
    spec fn view(&self) -> ResponseFieldsView {
        ResponseFieldsView {
            accept: text_of(self.accept),
            protocol: text_of(self.protocol),
            extensions: text_of(self.extensions),
            upgrade: self.upgrade,
            connection_upgrade: self.connection_upgrade,
        }
    }

    fn add(&mut self, name: &'a str, bytes: &'a [u8]) -> (r: Result<()>)
        ensures
            match with_response_field(old(self)@, name@, bytes@) {
                Ok(f) => r is Ok && final(self)@ == f,
                Err(e) => r == Err::<(), Error>(e),
            },
    {
        let value = match utf8::checked_str(bytes) {
            Some(value) => value,
            None => {
                return Err(Error::InvalidHttp("invalid header value"));
            },
        };
        proof {
            encode_utf8_decode_utf8(value@);
        }
        if eq_ignore_ascii_case(name, "sec-websocket-accept") {
            if self.accept.is_some() {
                return Err(Error::HandshakeFailed("duplicate Sec-WebSocket-Accept"));
            }
            self.accept = Some(value);
        } else if eq_ignore_ascii_case(name, "sec-websocket-protocol") {
            if self.protocol.is_some() {
                return Err(Error::HandshakeFailed("duplicate Sec-WebSocket-Protocol"));
            }
            if !is_token(value) {
                return Err(Error::HandshakeFailed("invalid Sec-WebSocket-Protocol"));
            }
            self.protocol = Some(value);
        } else if eq_ignore_ascii_case(name, "sec-websocket-extensions") {
            if self.extensions.is_some() {
                return Err(Error::HandshakeFailed("duplicate Sec-WebSocket-Extensions"));
            }
            if !is_valid_extension_list(value) {
                return Err(Error::HandshakeFailed("invalid Sec-WebSocket-Extensions"));
            }
            self.extensions = Some(value);
        } else if eq_ignore_ascii_case(name, "upgrade") {
            if !eq_ignore_ascii_case(value, "websocket") {
                return Err(Error::HandshakeFailed("missing Upgrade: websocket"));
            }
            self.upgrade = true;
        } else if eq_ignore_ascii_case(name, "connection") {
            if has_token_ignore_case(value, "upgrade") {
                self.connection_upgrade = true;
            }
        }
        Ok(())
    }
}

proof fn lemma_response_fields_error(headers: Seq<(Seq<char>, Seq<u8>)>, i: int)
    requires
        0 <= i <= headers.len(),
        response_fields(headers.take(i)) is Err,
    ensures
        response_fields(headers) == response_fields(headers.take(i)),
    decreases headers.len(),
{
    if i == headers.len() {
        assert(headers.take(i) =~= headers);
    } else {
        assert(headers.drop_last().take(i) =~= headers.take(i));
        lemma_response_fields_error(headers.drop_last(), i);
    }
}

fn read_response_fields<'a>(headers: &Vec<(&'a str, &'a [u8])>) -> (r: Result<ResponseFields<'a>>)
    ensures
        match response_fields(field_views(headers@)) {
            Ok(f) => r is Ok && r->Ok_0@ == f,
            Err(e) => r is Err && r->Err_0 == e,
        },
{
    let mut fields = ResponseFields {
        accept: None,
        protocol: None,
        extensions: None,
        upgrade: false,
        connection_upgrade: false,
    };
    let ghost all = field_views(headers@);
    let mut i: usize = 0;
    proof {
        assert(all.take(0) =~= seq![]);
        assert(fields@ =~= no_response_fields());
    }
    while i < headers.len()
        invariant
            i <= headers@.len(),
            all == field_views(headers@),
            response_fields(all.take(i as int)) == Ok::<ResponseFieldsView, Error>(fields@),
        decreases headers@.len() - i,
    {
        let (name, value) = headers[i];
        proof {
            assert(all.take(i + 1).drop_last() =~= all.take(i as int));
            assert(all.take(i + 1).last() == (name@, value@));
        }
        match fields.add(name, value) {
            Ok(()) => {},
            Err(e) => {
                proof {
                    lemma_response_fields_error(all, i + 1);
                }
                return Err(e);
            },
        }
        i = i + 1;
    }
    assert(all.take(i as int) =~= all);
    Ok(fields)
}

/// The outcome of reading a response as mathematical values.
pub open spec fn response_outcome(r: Result<HandshakeResponse>) -> Result<ResponseView> {
    match r {
        Ok(response) => Ok(response@),
        Err(e) => Err(e),
    }
}

/// The handshake response that a head is.
pub fn check_response<'a>(head: &ResponseHead<'a>) -> (r: Result<HandshakeResponse<'a>>)
    ensures
        response_outcome(r) == response_of(head@),
{
    if head.len > MAX_HEADER_SIZE {
        return Err(Error::InvalidHttp("response too large"));
    }
    if head.code != Some(101u16) {
        return Err(Error::HandshakeFailed("expected 101 Switching Protocols"));
    }
    if head.version != Some(1u8) {
        return Err(Error::InvalidHttp("HTTP version must be 1.1"));
    }
    let fields = match read_response_fields(&head.headers) {
        Ok(fields) => fields,
        Err(e) => {
            return Err(e);
        },
    };
    if !fields.upgrade {
        return Err(Error::HandshakeFailed("missing Upgrade: websocket"));
    }
    if !fields.connection_upgrade {
        return Err(Error::HandshakeFailed("missing Connection: Upgrade"));
    }
    Ok(
        HandshakeResponse {
            status: 101,
            accept: fields.accept,
            protocol: fields.protocol,
            extensions: fields.extensions,
        },
    )
}

/// Parse a WebSocket upgrade response (client-side)
///
/// What a server has written is read back.
pub fn parse_response<'a>(buf: &'a [u8]) -> (r: Result<Option<(HandshakeResponse<'a>, usize)>>)
    ensures
        match read_response(buf@) {
            Ok(Some((response, len))) => r matches Ok(Some((got, n))) && got@ == response && n
                == len && n <= buf@.len(),
            Ok(None) => r matches Ok(None),
            Err(e) => r matches Err(got) && got == e,
        },
        reads_back_responses(buf@),
{
    let parsed = split_response(head_slice(buf), MAX_HEADERS);
    proof {
        assert forall|w: WrittenResponse| #[trigger] w.begins(buf@) implies read_response(buf@)
            == Ok::<Option<(ResponseView, nat)>, Error>(
            Some((w.as_read(), encode_utf8(w.text()).len())),
        ) by {
            handshake_laws::lemma_response_begins(w, buf@);
            handshake_laws::lemma_written_response_is_read(w);
        }
    }
    match parsed {
        ParsedResponse::Complete(head) => match check_response(&head) {
            Ok(response) => Ok(Some((response, head.len))),
            Err(e) => Err(e),
        },
        ParsedResponse::Partial => {
            if buf.len() > MAX_HEADER_SIZE {
                Err(Error::InvalidHttp("response too large"))
            } else {
                Ok(None)
            }
        },
        ParsedResponse::Malformed => Err(Error::InvalidHttp("failed to parse HTTP response")),
    }
}

// ---------------------------------------------------------------------------
// Subprotocols
// ---------------------------------------------------------------------------

/// The first element of a list that is not empty.
pub open spec fn first_nonempty(all: Seq<Seq<char>>) -> Option<Seq<char>>
    decreases all.len(),
{
    if all.len() == 0 {
        None
    } else if all[0].len() > 0 {
        Some(all[0])
    } else {
        first_nonempty(all.drop_first())
    }
}

/// The first of the supported protocols that an offer lists.
pub open spec fn first_supported(offered: Seq<char>, supported: Seq<Seq<char>>) -> Option<Seq<char>>
    decreases supported.len(),
{
    if supported.len() == 0 {
        None
    } else if grammar::lists(offered, supported[0]) {
        Some(supported[0])
    } else {
        first_supported(offered, supported.drop_first())
    }
}

/// The texts of strings.
pub open spec fn string_views(s: Seq<String>) -> Seq<Seq<char>> {
    s.map_values(|t: String| t@)
}

/// The subprotocol that a server without preferences answers an offer with:
/// the first that is offered.
pub fn select_default_subprotocol<'a>(value: Option<&'a str>) -> (r: Option<&'a str>)
    ensures
        text_of(r) == (match value {
            Some(v) => first_nonempty(grammar::elements(v@)),
            None => None,
        }),
{
    let v = match value {
        Some(v) => v,
        None => {
            return None;
        },
    };
    let all = list_elements(v);
    let ghost e = grammar::elements(v@);
    let mut i: usize = 0;
    proof {
        assert(e.skip(0) =~= e);
    }
    while i < all.len()
        invariant
            i <= all@.len(),
            strings::views(all@) == e,
            e == grammar::elements(v@),
            value == Some(v),
            first_nonempty(e) == first_nonempty(e.skip(i as int)),
        decreases all@.len() - i,
    {
        proof {
            assert(all@[i as int]@ == strings::views(all@)[i as int]);
            assert(e.skip(i as int)[0] == e[i as int]);
            assert(e.skip(i as int).drop_first() =~= e.skip(i + 1));
        }
        if !all[i].is_empty() {
            return Some(all[i]);
        }
        i = i + 1;
    }
    assert(e.len() == all@.len());
    None
}

/// Whether every protocol that a server supports is a token.
pub fn validate_supported_protocols(protocols: &[String]) -> (r: Result<()>)
    ensures
        if forall|i: int| 0 <= i < protocols@.len() ==> grammar::token(
            (#[trigger] protocols@[i])@,
        ) {
            r is Ok
        } else {
            r == Err::<(), Error>(Error::InvalidHttp("invalid supported subprotocol"))
        },
{
    let mut i: usize = 0;
    while i < protocols.len()
        invariant
            i <= protocols@.len(),
            forall|j: int| 0 <= j < i ==> grammar::token((#[trigger] protocols@[j])@),
        decreases protocols@.len() - i,
    {
        if !is_token(protocols[i].as_str()) {
            assert(!grammar::token(protocols@[i as int]@));
            return Err(Error::InvalidHttp("invalid supported subprotocol"));
        }
        i = i + 1;
    }
    Ok(())
}

/// Select the first server-preferred protocol present in an offer.
pub fn select_supported_subprotocol<'a>(offered: Option<&str>, supported: &'a [String]) -> (r:
    Option<&'a str>)
    ensures
        text_of(r) == (match offered {
            Some(v) => first_supported(v@, string_views(supported@)),
            None => None,
        }),
{
    let v = match offered {
        Some(v) => v,
        None => {
            return None;
        },
    };
    let ghost all = string_views(supported@);
    let mut i: usize = 0;
    proof {
        assert(all.skip(0) =~= all);
    }
    while i < supported.len()
        invariant
            i <= supported@.len(),
            all == string_views(supported@),
            offered == Some(v),
            first_supported(v@, all) == first_supported(v@, all.skip(i as int)),
        decreases supported@.len() - i,
    {
        proof {
            assert(all.skip(i as int)[0] == supported@[i as int]@);
            assert(all.skip(i as int).drop_first() =~= all.skip(i + 1));
        }
        if has_element(v, supported[i].as_str()) {
            return Some(supported[i].as_str());
        }
        i = i + 1;
    }
    None
}

/// Whether a client may take the subprotocol that a server selected: one that
/// it has offered, or none.
pub open spec fn selection_allowed(offered: Option<Seq<char>>, selected: Option<Seq<char>>) -> bool {
    selected matches Some(s) ==> (offered matches Some(o) && grammar::lists(o, s))
}

/// Validate the selected subprotocol from a parsed response against the
/// protocol list already validated by the request builder.
pub fn validate_selected_protocol(offered: Option<&str>, selected: Option<&str>) -> (r: Result<()>)
    ensures
        if selection_allowed(text_of(offered), text_of(selected)) {
            r is Ok
        } else {
            r == Err::<(), Error>(
                Error::HandshakeFailed("server returned an unoffered subprotocol"),
            )
        },
{
    let s = match selected {
        Some(s) => s,
        None => {
            return Ok(());
        },
    };
    let listed = match offered {
        Some(o) => has_element(o, s),
        None => false,
    };
    if listed {
        Ok(())
    } else {
        Err(Error::HandshakeFailed("server returned an unoffered subprotocol"))
    }
}

// ---------------------------------------------------------------------------
// The two sides of a handshake
// ---------------------------------------------------------------------------

/// Result of a successful handshake
#[derive(Debug)]
pub struct HandshakeResult {
    /// The request path
    pub path: String,
    /// Negotiated subprotocol
    pub protocol: Option<String>,
    /// Negotiated extensions
    pub extensions: Option<String>,
    /// Bytes read beyond the end of the HTTP handshake.
    ///
    /// High-level `connect*` and `accept*` methods automatically replay these
    /// bytes through the returned WebSocket stream. Direct handshake callers
    /// remain responsible for preserving them.
    pub leftover: Option<Bytes>,
}

/// The result of a handshake as mathematical values.
#[verifier::ext_equal]
pub struct ResultView {
    /// The request path
    pub path: Seq<char>,
    /// Negotiated subprotocol
    pub protocol: Option<Seq<char>>,
    /// Negotiated extensions
    pub extensions: Option<Seq<char>>,
    /// Bytes read beyond the end of the HTTP handshake
    pub leftover: Option<Seq<u8>>,
}

/// The text of an optional string.
pub open spec fn string_of(s: Option<String>) -> Option<Seq<char>> {
    match s {
        Some(t) => Some(t@),
        None => None,
    }
}

impl HandshakeResult {
    /// The result as mathematical values.
    pub open spec fn view(&self) -> ResultView {
        ResultView {
            path: self.path@,
            protocol: string_of(self.protocol),
            extensions: string_of(self.extensions),
            leftover: match self.leftover {
                Some(b) => Some(b@),
                None => None,
            },
        }
    }
}

/// What a server sends back, and what the handshake came to.
#[derive(Debug)]
pub struct ServerAnswer {
    /// The response to send
    pub response: Bytes,
    /// The result of the handshake
    pub result: HandshakeResult,
}

/// The bytes of `buf` behind the first `consumed`, where there are any.
pub open spec fn left_over(buf: Seq<u8>, consumed: nat) -> Option<Seq<u8>> {
    if consumed < buf.len() {
        Some(buf.skip(consumed as int))
    } else {
        None
    }
}

/// The subprotocol with which a server answers an offer: the first that it
/// supports, or, where it has no preferences, the first that is offered.
pub open spec fn selected_protocol(
    offered: Option<Seq<char>>,
    supported: Option<Seq<Seq<char>>>,
) -> Option<Seq<char>> {
    match offered {
        None => None,
        Some(o) => match supported {
            Some(s) => first_supported(o, s),
            None => first_nonempty(grammar::elements(o)),
        },
    }
}

/// The texts of optional strings.
pub open spec fn supported_views(supported: Option<&[String]>) -> Option<Seq<Seq<char>>> {
    match supported {
        Some(s) => Some(string_views(s@)),
        None => None,
    }
}

/// Whether `answer` answers a request that takes up the first `consumed` bytes of `buf`.
pub open spec fn answers(
    answer: ServerAnswer,
    request: RequestView,
    consumed: nat,
    buf: Seq<u8>,
    supported: Option<Seq<Seq<char>>>,
    extensions: Option<Seq<char>>,
) -> bool {
    let protocol = selected_protocol(request.protocol, supported);
    &&& answer.response@ == encode_utf8(
        response_text(accept_key(request.key), protocol, extensions),
    )
    &&& answer.result@ == (ResultView {
        path: request.path,
        protocol,
        extensions: request.extensions,
        leftover: left_over(buf, consumed),
    })
}

fn owned(s: Option<&str>) -> (r: Option<String>)
    ensures
        string_of(r) == text_of(s),
{
    match s {
        Some(t) => Some(t.to_owned()),
        None => None,
    }
}

fn rest_after(buf: &[u8], consumed: usize) -> (r: Option<Bytes>)
    ensures
        match r {
            Some(b) => left_over(buf@, consumed as nat) == Some(b@),
            None => left_over(buf@, consumed as nat) is None,
        },
{
    if consumed < buf.len() {
        let (_head, rest) = buf.split_at(consumed);
        assert(rest@ =~= buf@.skip(consumed as int));
        Some(Bytes::copy_from_slice(rest))
    } else {
        None
    }
}

/// Answers a handshake request that takes up the first `consumed` bytes of `buf`.
pub fn answer_parsed(
    request: &HandshakeRequest,
    consumed: usize,
    buf: &[u8],
    supported: Option<&[String]>,
    response_extensions: Option<&str>,
) -> (r: ServerAnswer)
    ensures
        answers(
            r,
            request@,
            consumed as nat,
            buf@,
            supported_views(supported),
            text_of(response_extensions),
        ),
        base64_chars(accept_key(request@.key)),
{
    let path = match &request.path {
        Cow::Borrowed(s) => (*s).to_owned(),
        Cow::Owned(s) => s.clone(),
    };
    let protocol = match supported {
        Some(s) => select_supported_subprotocol(request.protocol, s),
        None => select_default_subprotocol(request.protocol),
    };
    let accept = generate_accept_key(request.key);
    let response = build_response(accept.as_str(), protocol, response_extensions);
    ServerAnswer {
        response,
        result: HandshakeResult {
            path,
            protocol: owned(protocol),
            extensions: owned(request.extensions),
            leftover: rest_after(buf, consumed),
        },
    }
}

/// One step of a server's handshake: `read` bytes have just arrived at the end
/// of `buf`. Gives the answer, or nothing where more bytes are needed.
pub fn server_step(
    read: usize,
    buf: &[u8],
    supported: Option<&[String]>,
    response_extensions: Option<&str>,
) -> (r: Result<Option<ServerAnswer>>)
    ensures
        if read == 0 {
            r matches Err(Error::ConnectionClosed)
        } else {
            match read_request(buf@) {
                Ok(Some((request, consumed))) => r matches Ok(Some(answer)) && answers(
                    answer,
                    request,
                    consumed,
                    buf@,
                    supported_views(supported),
                    text_of(response_extensions),
                ),
                Ok(None) => r matches Ok(None),
                Err(e) => r matches Err(got) && got == e,
            }
        },
        read > 0 ==> reads_back_requests(buf@),
        r matches Ok(Some(_)) ==> (read_request(buf@) matches Ok(Some((request, _)))
            && base64_chars(accept_key(request.key))),
{
    if read == 0 {
        return Err(Error::ConnectionClosed);
    }
    match parse_request(buf) {
        Ok(Some((request, consumed))) => Ok(
            Some(answer_parsed(&request, consumed, buf, supported, response_extensions)),
        ),
        Ok(None) => Ok(None),
        Err(e) => Err(e),
    }
}

/// What a client makes of a response that takes up the first `consumed` bytes
/// of `buf`: the server must prove that it has read the key, and may only
/// select a subprotocol that was offered.
pub open spec fn accepted(
    response: ResponseView,
    consumed: nat,
    buf: Seq<u8>,
    key: Seq<char>,
    path: Seq<char>,
    offered: Option<Seq<char>>,
) -> Result<ResultView> {
    if response.accept is None {
        Err(Error::HandshakeFailed("missing Sec-WebSocket-Accept"))
    } else if response.accept->0 != accept_key(key) {
        Err(Error::HandshakeFailed("invalid Sec-WebSocket-Accept"))
    } else if !selection_allowed(offered, response.protocol) {
        Err(Error::HandshakeFailed("server returned an unoffered subprotocol"))
    } else {
        Ok(
            ResultView {
                path,
                protocol: response.protocol,
                extensions: response.extensions,
                leftover: left_over(buf, consumed),
            },
        )
    }
}

/// The outcome of a client's handshake as mathematical values.
pub open spec fn result_outcome(r: Result<HandshakeResult>) -> Result<ResultView> {
    match r {
        Ok(result) => Ok(result@),
        Err(e) => Err(e),
    }
}

/// Accepts a response that takes up the first `consumed` bytes of `buf`.
pub fn accept_parsed(
    response: &HandshakeResponse,
    consumed: usize,
    buf: &[u8],
    key: &str,
    path: &str,
    offered: Option<&str>,
) -> (r: Result<HandshakeResult>)
    ensures
        result_outcome(r) == accepted(
            response@,
            consumed as nat,
            buf@,
            key@,
            path@,
            text_of(offered),
        ),
{
    let accept = match response.accept {
        Some(accept) => accept,
        None => {
            return Err(Error::HandshakeFailed("missing Sec-WebSocket-Accept"));
        },
    };
    if !validate_accept_key(key, accept) {
        return Err(Error::HandshakeFailed("invalid Sec-WebSocket-Accept"));
    }
    match validate_selected_protocol(offered, response.protocol) {
        Ok(()) => {},
        Err(e) => {
            return Err(e);
        },
    }
    Ok(
        HandshakeResult {
            path: path.to_owned(),
            protocol: owned(response.protocol),
            extensions: owned(response.extensions),
            leftover: rest_after(buf, consumed),
        },
    )
}

/// One step of a client's handshake, after its request was sent: `read` bytes
/// have just arrived at the end of `buf`. Gives the result, or nothing where
/// more bytes are needed.
pub fn client_step(read: usize, buf: &[u8], key: &str, path: &str, offered: Option<&str>) -> (r:
    Result<Option<HandshakeResult>>)
    ensures
        if read == 0 {
            r matches Err(Error::ConnectionClosed)
        } else {
            match read_response(buf@) {
                Ok(Some((response, consumed))) => match accepted(
                    response,
                    consumed,
                    buf@,
                    key@,
                    path@,
                    text_of(offered),
                ) {
                    Ok(result) => r matches Ok(Some(got)) && got@ == result,
                    Err(e) => r matches Err(got) && got == e,
                },
                Ok(None) => r matches Ok(None),
                Err(e) => r matches Err(got) && got == e,
            }
        },
        read > 0 ==> reads_back_responses(buf@),
{
    if read == 0 {
        return Err(Error::ConnectionClosed);
    }
    match parse_response(buf) {
        Ok(Some((response, consumed))) => {
            match accept_parsed(&response, consumed, buf, key, path, offered) {
                Ok(result) => Ok(Some(result)),
                Err(e) => Err(e),
            }
        },
        Ok(None) => Ok(None),
        Err(e) => Err(e),
    }
}

} // verus!
