//! WebSocket clients: where a URL leads, what a client asks and what it makes of
//! the answer.
use crate::config;
use crate::config::Config;
use crate::error::{Error, Result};
use crate::extended_connect;
use crate::extended_connect::validate_extended_connect_response;
use crate::extended_connect::{FORBIDDEN, NOT_IMPLEMENTED, OK};
use crate::handshake;
use crate::handshake::{parse_uri, UriParts, UriView};
use crate::strings;
use crate::strings::{chars_of, same};
use crate::text;
use crate::text::{parse_number, push_decimal};
use std::marker::PhantomData;
use vstd::prelude::*;
use vstd::string::{StrSliceExecFns, StringExecFns};

verus! {

/// WebSockets over HTTP/1.1
#[derive(Debug)]
pub struct Http1;

/// WebSockets over HTTP/2
#[derive(Debug)]
pub struct Http2;

/// WebSockets over HTTP/3
#[derive(Debug)]
pub struct Http3;

/// WebSocket client generic over transport protocol
///
/// Use `WebSocketClient<Http1>` for HTTP/1.1, `WebSocketClient<Http2>` for HTTP/2,
/// or `WebSocketClient<Http3>` for HTTP/3.
#[derive(Debug)]
#[verifier::reject_recursive_types(T)]
pub struct WebSocketClient<T> {
    config: Config,
    _marker: PhantomData<T>,
}

impl<T> WebSocketClient<T> {
    /// The client configuration.
    pub closed spec fn settings(&self) -> Config {
        self.config
    }
}

impl<T> Clone for WebSocketClient<T> {
    fn clone(&self) -> (r: Self)
        ensures
            r.settings() == self.settings(),
    {
        WebSocketClient { config: self.config.clone(), _marker: PhantomData }
    }
}

impl WebSocketClient<Http1> {
    /// Create a new HTTP/1.1 WebSocket client with the given configuration
    pub fn new(config: Config) -> (r: Self)
        ensures
            r.settings() == config,
    {
        WebSocketClient { config, _marker: PhantomData }
    }

    /// Create a new HTTP/1.1 WebSocket client with default configuration
    pub fn default_config() -> (r: Self)
        ensures
            config::is_default(r.settings()),
    {
        Self::new(Config::default())
    }

    /// Get the client configuration
    pub fn config(&self) -> (r: &Config)
        ensures
            *r == self.settings(),
    {
        &self.config
    }
}

impl WebSocketClient<Http2> {
    /// Create a new HTTP/2 WebSocket client with the given configuration
    pub fn new(config: Config) -> (r: Self)
        ensures
            r.settings() == config,
    {
        WebSocketClient { config, _marker: PhantomData }
    }

    /// Create a new HTTP/2 WebSocket client with default configuration
    pub fn default_config() -> (r: Self)
        ensures
            config::is_default(r.settings()),
    {
        Self::new(Config::default())
    }

    /// Get the client configuration
    pub fn config(&self) -> (r: &Config)
        ensures
            *r == self.settings(),
    {
        &self.config
    }
}

impl WebSocketClient<Http3> {
    /// Create a new HTTP/3 WebSocket client
    pub fn new(config: Config) -> (r: Self)
        ensures
            r.settings() == config,
    {
        WebSocketClient { config, _marker: PhantomData }
    }

    /// Create with default configuration
    pub fn default_config() -> (r: Self)
        ensures
            config::is_default(r.settings()),
    {
        Self::new(Config::default())
    }

    /// Get the client configuration
    pub fn config(&self) -> (r: &Config)
        ensures
            *r == self.settings(),
    {
        &self.config
    }
}

impl Default for WebSocketClient<Http1> {
    fn default() -> (r: Self)
        ensures
            config::is_default(r.settings()),
    {
        Self::default_config()
    }
}

impl Default for WebSocketClient<Http2> {
    fn default() -> (r: Self)
        ensures
            config::is_default(r.settings()),
    {
        Self::default_config()
    }
}

impl Default for WebSocketClient<Http3> {
    fn default() -> (r: Self)
        ensures
            config::is_default(r.settings()),
    {
        Self::default_config()
    }
}

// ---------------------------------------------------------------------------
// Where a URL leads
// ---------------------------------------------------------------------------

/// Where a WebSocket URL leads.
#[derive(Debug)]
pub struct UrlTarget {
    /// The host, without a port
    pub host: String,
    /// The port
    pub port: u16,
    /// The request path
    pub path: String,
}

/// Where a URL leads, as mathematical values.
#[verifier::ext_equal]
pub struct TargetView {
    /// The host, without a port
    pub host: Seq<char>,
    /// The port
    pub port: nat,
    /// The request path
    pub path: Seq<char>,
}

impl UrlTarget {
    /// The target as mathematical values.
    pub open spec fn view(&self) -> TargetView {
        TargetView { host: self.host@, port: self.port as nat, path: self.path@ }
    }

    /// The address to connect to
    pub fn address(&self) -> (r: String)
        ensures
            r@ == self.host@ + ":"@ + text::decimal(self.port as nat),
    {
        let mut out = self.host.as_str().to_owned();
        out.append(":");
        push_decimal(&mut out, self.port as u64);
        out
    }
}

/// Where the first `://` of a text begins, or its length where there is none.
pub open spec fn scheme_len(s: Seq<char>) -> nat
    decreases s.len(),
{
    if s.len() == 0 || (s.len() >= 3 && s[0] == ':' && s[1] == '/' && s[2] == '/') {
        0
    } else {
        1 + scheme_len(s.drop_first())
    }
}

/// Where the last occurrence of a character begins, if there is one.
pub open spec fn last_of(s: Seq<char>, c: char) -> Option<int>
    decreases s.len(),
{
    if s.len() == 0 {
        None
    } else if s.last() == c {
        Some(s.len() - 1)
    } else {
        last_of(s.drop_last(), c)
    }
}

/// The port that a scheme stands for.
pub open spec fn default_port(scheme: Seq<char>) -> Option<nat> {
    if scheme == "ws"@ {
        Some(80)
    } else if scheme == "wss"@ {
        Some(443)
    } else {
        None
    }
}

/// Where a host with an optional port, and a path, lead.
pub open spec fn host_target(host_port: Seq<char>, path: Seq<char>, port: nat) -> Result<
    TargetView,
> {
    match last_of(host_port, ':') {
        Some(at) => match text::number(host_port.skip(at + 1), u16::MAX as nat) {
            None => Err(Error::HandshakeFailed("invalid port")),
            Some(port) => if at == 0 {
                Err(Error::HandshakeFailed("URL missing host"))
            } else {
                Ok(TargetView { host: host_port.take(at), port, path })
            },
        },
        None => if host_port.len() == 0 {
            Err(Error::HandshakeFailed("URL missing host"))
        } else {
            Ok(TargetView { host: host_port, port, path })
        },
    }
}

/// Where a WebSocket URL leads: to a host with an optional port, and to a path,
/// which is `/` where there is none.
pub open spec fn url_target(url: Seq<char>) -> Result<TargetView> {
    let n = scheme_len(url) as int;
    if n >= url.len() {
        Err(Error::HandshakeFailed("invalid URL: missing scheme"))
    } else {
        match default_port(url.take(n)) {
            None => Err(Error::HandshakeFailed("invalid URL scheme: expected ws or wss")),
            Some(port) => {
                let rest = url.skip(n + 3);
                let slash = strings::prefix_len(rest, '/') as int;
                if slash >= rest.len() {
                    host_target(rest, "/"@, port)
                } else {
                    host_target(rest.take(slash), rest.skip(slash), port)
                }
            },
        }
    }
}

proof fn lemma_scheme_len(s: Seq<char>, n: int)
    requires
        0 <= n <= s.len(),
        forall|i: int|
            0 <= i < n ==> !(i + 3 <= s.len() && #[trigger] s[i] == ':' && s[i + 1] == '/' && s[i
                + 2] == '/'),
        n < s.len() ==> n + 3 <= s.len() && s[n] == ':' && s[n + 1] == '/' && s[n + 2] == '/',
    ensures
        scheme_len(s) == n,
    decreases n,
{
    if n > 0 {
        let t = s.drop_first();
        assert forall|i: int| 0 <= i < n - 1 implies !(i + 3 <= t.len() && #[trigger] t[i] == ':'
            && t[i + 1] == '/' && t[i + 2] == '/') by {
            assert(t[i] == s[i + 1]);
        }
        assert(s[0] == s[0]);
        lemma_scheme_len(t, n - 1);
    }
}

proof fn lemma_last_of(s: Seq<char>, c: char, at: int)
    requires
        0 <= at < s.len(),
        s[at] == c,
        forall|i: int| at < i < s.len() ==> #[trigger] s[i] != c,
    ensures
        last_of(s, c) == Some(at),
    decreases s.len(),
{
    if at < s.len() - 1 {
        lemma_last_of(s.drop_last(), c, at);
    }
}

proof fn lemma_last_of_none(s: Seq<char>, c: char)
    requires
        forall|i: int| 0 <= i < s.len() ==> #[trigger] s[i] != c,
    ensures
        last_of(s, c) is None,
    decreases s.len(),
{
    if s.len() > 0 {
        lemma_last_of_none(s.drop_last(), c);
    }
}

/// Splits a text at its first `://`.
fn split_scheme<'a>(url: &'a str) -> (r: Option<(&'a str, &'a str)>)
    ensures
        match r {
            None => scheme_len(url@) >= url@.len(),
            Some((scheme, rest)) => {
                &&& scheme_len(url@) < url@.len()
                &&& scheme@ == url@.take(scheme_len(url@) as int)
                &&& rest@ == url@.skip(scheme_len(url@) as int + 3)
            },
        },
{
    let chars = chars_of(url);
    let mut i: usize = 0;
    while i < chars.len()
        invariant
            i <= chars@.len(),
            chars@ == url@,
            forall|j: int|
                0 <= j < i ==> !(j + 3 <= url@.len() && #[trigger] url@[j] == ':' && url@[j + 1]
                    == '/' && url@[j + 2] == '/'),
        decreases chars@.len() - i,
    {
        if chars.len() - i >= 3 && chars[i] == ':' && chars[i + 1] == '/' && chars[i + 2] == '/' {
            proof {
                lemma_scheme_len(url@, i as int);
                assert(url@.subrange(0, i as int) =~= url@.take(i as int));
                assert(url@.subrange(i + 3, url@.len() as int) =~= url@.skip(i + 3));
            }
            let n: usize = chars.len();
            return Some((url.substring_char(0, i), url.substring_char(i + 3, n)));
        }
        i = i + 1;
    }
    proof {
        lemma_scheme_len(url@, i as int);
    }
    None
}

/// Where a host with an optional port, and a path, lead.
fn resolve_host(host_port: &str, path: &str, port: u16) -> (r: Result<UrlTarget>)
    ensures
        match host_target(host_port@, path@, port as nat) {
            Ok(t) => r is Ok && r->Ok_0@ == t,
            Err(e) => r == Err::<UrlTarget, Error>(e),
        },
{
    let chars = chars_of(host_port);
    let n: usize = chars.len();
    let mut at: usize = n;
    while at > 0 && chars[at - 1] != ':'
        invariant
            at <= n == chars@.len(),
            chars@ == host_port@,
            forall|i: int| at <= i < n ==> #[trigger] host_port@[i] != ':',
        decreases at,
    {
        at = at - 1;
    }
    if at == 0 {
        proof {
            lemma_last_of_none(host_port@, ':');
        }
        if n == 0 {
            return Err(Error::HandshakeFailed("URL missing host"));
        }
        return Ok(UrlTarget { host: host_port.to_owned(), port, path: path.to_owned() });
    }
    proof {
        lemma_last_of(host_port@, ':', at - 1);
        assert(host_port@.subrange(at as int, n as int) =~= host_port@.skip(at as int));
        assert(host_port@.subrange(0, at - 1) =~= host_port@.take(at - 1));
    }
    let given: u16 = match parse_number(host_port.substring_char(at, n), u16::MAX as u64) {
        Some(p) => p as u16,
        None => {
            return Err(Error::HandshakeFailed("invalid port"));
        },
    };
    if at == 1 {
        return Err(Error::HandshakeFailed("URL missing host"));
    }
    Ok(
        UrlTarget {
            host: host_port.substring_char(0, at - 1).to_owned(),
            port: given,
            path: path.to_owned(),
        },
    )
}

/// Where a WebSocket URL leads
pub fn parse_url(url: &str) -> (r: Result<UrlTarget>)
    ensures
        match url_target(url@) {
            Ok(t) => r is Ok && r->Ok_0@ == t,
            Err(e) => r == Err::<UrlTarget, Error>(e),
        },
{
    let (scheme, rest) = match split_scheme(url) {
        Some(parts) => parts,
        None => {
            return Err(Error::HandshakeFailed("invalid URL: missing scheme"));
        },
    };
    let port: u16 = if same(scheme, "ws") {
        80
    } else if same(scheme, "wss") {
        443
    } else {
        return Err(Error::HandshakeFailed("invalid URL scheme: expected ws or wss"));
    };
    // Split host:port from path
    let chars = chars_of(rest);
    let n: usize = chars.len();
    let mut slash: usize = 0;
    while slash < n && chars[slash] != '/'
        invariant
            slash <= n == chars@.len(),
            chars@ == rest@,
            forall|i: int| 0 <= i < slash ==> #[trigger] rest@[i] != '/',
        decreases n - slash,
    {
        slash = slash + 1;
    }
    proof {
        let host = rest@.take(slash as int);
        assert(!host.contains('/'));
        if slash < n {
            let path = rest@.skip(slash + 1);
            strings::lemma_prefix_len(host, '/', path);
            assert(rest@ =~= host + seq!['/'] + path);
        } else {
            strings::lemma_prefix_len(host, '/', seq![]);
            assert(rest@ =~= host);
        }
        assert(rest@.subrange(0, slash as int) =~= rest@.take(slash as int));
        assert(rest@.subrange(slash as int, n as int) =~= rest@.skip(slash as int));
    }
    if slash >= n {
        resolve_host(rest, "/", port)
    } else {
        resolve_host(rest.substring_char(0, slash), rest.substring_char(slash, n), port)
    }
}

// ---------------------------------------------------------------------------
// Extended CONNECT requests
// ---------------------------------------------------------------------------

/// The URI of the request that opens a WebSocket over HTTP/2.
pub open spec fn connect_uri(uri: Option<UriView>) -> Result<Seq<char>> {
    match uri {
        None => Err(Error::HandshakeFailed("invalid URI")),
        Some(u) => match u.authority {
            None => Err(Error::HandshakeFailed("URI missing authority")),
            Some((authority, _)) => Ok(
                (match u.scheme {
                    Some(scheme) => scheme,
                    None => "https"@,
                }) + "://"@ + authority + (match u.path_and_query {
                    Some(path) => path,
                    None => "/"@,
                }),
            ),
        },
    }
}

/// Whether a text is what a specification says, or the error.
pub open spec fn text_outcome(r: Result<String>, want: Result<Seq<char>>) -> bool {
    match want {
        Ok(s) => r matches Ok(text) && text@ == s,
        Err(e) => r == Err::<String, Error>(e),
    }
}

/// The URI of the request that opens a WebSocket over HTTP/2, of the parts of a URI
pub fn connect_uri_of(uri: &Option<UriParts>) -> (r: Result<String>)
    ensures
        text_outcome(r, connect_uri(handshake::uri_view(*uri))),
{
    let parts = match uri {
        Some(parts) => parts,
        None => {
            return Err(Error::HandshakeFailed("invalid URI"));
        },
    };
    let authority = match &parts.authority {
        Some(a) => a.0.as_str(),
        None => {
            return Err(Error::HandshakeFailed("URI missing authority"));
        },
    };
    let mut full = match &parts.scheme {
        Some(s) => s.as_str().to_owned(),
        None => "https".to_owned(),
    };
    full.append("://");
    full.append(authority);
    match &parts.path_and_query {
        Some(p) => full.append(p.as_str()),
        None => full.append("/"),
    }
    Ok(full)
}

/// The URI of the request that opens a WebSocket over HTTP/2
pub fn http2_connect_uri(uri: &str) -> (r: Result<String>)
    ensures
        text_outcome(r, connect_uri(handshake::uri_parts(uri@))),
{
    connect_uri_of(&parse_uri(uri))
}

/// The URI of the request that opens a WebSocket over HTTP/3
pub fn http3_connect_uri(server_name: &str, port: u16, path: &str) -> (r: String)
    ensures
        r@ == "https://"@ + server_name@ + ":"@ + text::decimal(port as nat) + path@,
{
    let mut out = "https://".to_owned();
    out.append(server_name);
    out.append(":");
    push_decimal(&mut out, port as u64);
    out.append(path);
    out
}

/// The header fields of the request that opens a WebSocket over HTTP/2.
pub open spec fn http2_headers(protocol: Option<Seq<char>>, extra: Seq<(Seq<char>, Seq<char>)>) -> Seq<
    (Seq<char>, Seq<char>),
> {
    extended_connect::optional_header("sec-websocket-protocol"@, protocol) + seq![
        ("sec-websocket-version"@, "13"@),
    ] + extra
}

/// The header fields of the request that opens a WebSocket over HTTP/3.
pub open spec fn http3_headers(protocol: Option<Seq<char>>, origin: Option<Seq<char>>) -> Seq<
    (Seq<char>, Seq<char>),
> {
    seq![("sec-websocket-version"@, "13"@)] + extended_connect::optional_header(
        "sec-websocket-protocol"@,
        protocol,
    ) + extended_connect::optional_header("origin"@, origin)
}

fn push_field(headers: &mut Vec<(String, String)>, name: &str, value: &str)
    ensures
        handshake::header_views(final(headers)@) == handshake::header_views(old(headers)@).push(
            (name@, value@),
        ),
{
    let ghost before = headers@;
    headers.push((name.to_owned(), value.to_owned()));
    assert(handshake::header_views(headers@) =~= handshake::header_views(before).push(
        (name@, value@),
    ));
}

/// The header fields of the request that opens a WebSocket over HTTP/2
pub fn http2_connect_headers(protocol: Option<&str>, extra: Option<&[(String, String)]>) -> (r: Vec<
    (String, String),
>)
    ensures
        handshake::header_views(r@) == http2_headers(
            handshake::text_of(protocol),
            handshake::extra_views(extra),
        ),
{
    let mut headers: Vec<(String, String)> = Vec::new();
    let ghost base = extended_connect::optional_header(
        "sec-websocket-protocol"@,
        handshake::text_of(protocol),
    ) + seq![("sec-websocket-version"@, "13"@)];
    assert(handshake::header_views(headers@) =~= Seq::<(Seq<char>, Seq<char>)>::empty());
    if let Some(proto) = protocol {
        push_field(&mut headers, "sec-websocket-protocol", proto);
    }
    push_field(&mut headers, "sec-websocket-version", "13");
    assert(handshake::header_views(headers@) =~= base);
    if let Some(more) = extra {
        let ghost all = handshake::header_views(more@);
        let mut i: usize = 0;
        assert(base + all.take(0) =~= base);
        while i < more.len()
            invariant
                i <= more@.len(),
                all == handshake::header_views(more@),
                handshake::header_views(headers@) == base + all.take(i as int),
            decreases more@.len() - i,
        {
            push_field(&mut headers, more[i].0.as_str(), more[i].1.as_str());
            assert(all[i as int] == (more@[i as int].0@, more@[i as int].1@));
            i = i + 1;
            assert(handshake::header_views(headers@) =~= base + all.take(i as int));
        }
        assert(all.take(i as int) =~= all);
    } else {
        assert(base + handshake::extra_views(extra) =~= base);
    }
    headers
}

/// The header fields of the request that opens a WebSocket over HTTP/3
pub fn http3_connect_headers(protocol: Option<&str>, origin: Option<&str>) -> (r: Vec<
    (String, String),
>)
    ensures
        handshake::header_views(r@) == http3_headers(
            handshake::text_of(protocol),
            handshake::text_of(origin),
        ),
{
    let mut headers: Vec<(String, String)> = Vec::new();
    assert(handshake::header_views(headers@) =~= Seq::<(Seq<char>, Seq<char>)>::empty());
    push_field(&mut headers, "sec-websocket-version", "13");
    if let Some(proto) = protocol {
        push_field(&mut headers, "sec-websocket-protocol", proto);
    }
    if let Some(orig) = origin {
        push_field(&mut headers, "origin", orig);
    }
    assert(handshake::header_views(headers@) =~= http3_headers(
        handshake::text_of(protocol),
        handshake::text_of(origin),
    ));
    headers
}

// ---------------------------------------------------------------------------
// Answers
// ---------------------------------------------------------------------------

/// Why a client refuses an HTTP/2 answer, if it does.
pub open spec fn http2_refusal(
    status: u16,
    selected: Seq<Seq<u8>>,
    offered: Option<Seq<char>>,
) -> Option<Error> {
    if status != OK {
        Some(Error::HandshakeFailed("server rejected WebSocket upgrade"))
    } else {
        extended_connect::response_error(selected, offered)
    }
}

/// Why a client refuses an HTTP/3 answer, if it does.
pub open spec fn http3_refusal(
    status: u16,
    selected: Seq<Seq<u8>>,
    offered: Option<Seq<char>>,
) -> Option<Error> {
    if status == OK {
        extended_connect::response_error(selected, offered)
    } else if status == NOT_IMPLEMENTED {
        Some(Error::ExtendedConnectNotSupported)
    } else if status == FORBIDDEN {
        Some(Error::HandshakeFailed("server returned 403: connection forbidden"))
    } else {
        Some(Error::HandshakeFailed("server rejected WebSocket upgrade"))
    }
}

/// Check the answer to a request over HTTP/2, where `protocols` are the values
/// of its `sec-websocket-protocol` fields
pub fn check_http2_response(status: u16, protocols: &Vec<Vec<u8>>, offered: Option<&str>) -> (r:
    Result<()>)
    ensures
        match http2_refusal(
            status,
            extended_connect::value_views(protocols@),
            handshake::text_of(offered),
        ) {
            Some(e) => r == Err::<(), Error>(e),
            None => r is Ok,
        },
{
    if status != OK {
        return Err(Error::HandshakeFailed("server rejected WebSocket upgrade"));
    }
    validate_extended_connect_response(protocols, offered)
}

/// Check the answer to a request over HTTP/3, where `protocols` are the values
/// of its `sec-websocket-protocol` fields
pub fn check_http3_response(status: u16, protocols: &Vec<Vec<u8>>, offered: Option<&str>) -> (r:
    Result<()>)
    ensures
        match http3_refusal(
            status,
            extended_connect::value_views(protocols@),
            handshake::text_of(offered),
        ) {
            Some(e) => r == Err::<(), Error>(e),
            None => r is Ok,
        },
{
    if status == OK {
        return validate_extended_connect_response(protocols, offered);
    }
    if status == NOT_IMPLEMENTED {
        return Err(Error::ExtendedConnectNotSupported);
    }
    if status == FORBIDDEN {
        return Err(Error::HandshakeFailed("server returned 403: connection forbidden"));
    }
    Err(Error::HandshakeFailed("server rejected WebSocket upgrade"))
}

/// Check the status of the answer to a request on a multiplexed connection
pub fn check_multiplexed_status(status: u16) -> (r: Result<()>)
    ensures
        status == OK ==> r is Ok,
        status != OK ==> r == Err::<(), Error>(
            Error::HandshakeFailed("server rejected WebSocket upgrade"),
        ),
{
    if status != OK {
        return Err(Error::HandshakeFailed("server rejected WebSocket upgrade"));
    }
    Ok(())
}

/// A client opens no WebSocket unless the server accepts it, and takes no
/// subprotocol that it has not offered, over either transport.
pub proof fn law_client_takes_only_what_it_offered(
    status: u16,
    selected: Seq<Seq<u8>>,
    offered: Option<Seq<char>>,
)
    requires
        http2_refusal(status, selected, offered) is None || http3_refusal(
            status,
            selected,
            offered,
        ) is None,
    ensures
        status == OK,
        selected.len() <= 1,
        selected.len() == 1 ==> extended_connect::header_text(selected[0]) is Some
            && handshake::selection_allowed(offered, extended_connect::header_text(selected[0])),
{
}

} // verus!
