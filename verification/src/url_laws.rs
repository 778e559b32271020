//! Where URLs lead, and what is written to ask for them.
use crate::client;
use crate::client::TargetView;
use crate::error::Error;
use crate::grammar;
use crate::handshake;
use crate::handshake::UriView;
use crate::strings;
use crate::text;
use vstd::prelude::*;

verus! {

// ---------------------------------------------------------------------------
// Numbers
// ---------------------------------------------------------------------------

/// A number reads back from its decimal digits, which are all digits.
pub proof fn law_decimal_digits_read_back(n: nat)
    ensures
        text::decimal_value(text::decimal(n)) == n,
        text::decimal(n).len() > 0,
        forall|i: int|
            0 <= i < text::decimal(n).len() ==> '0' <= #[trigger] text::decimal(n)[i] <= '9',
    decreases n,
{
    let d = text::decimal(n);
    let last: nat = n % 10;
    assert(text::digit(last) as u32 == 48 + last);
    if n >= 10 {
        law_decimal_digits_read_back(n / 10);
        assert(d.drop_last() =~= text::decimal(n / 10));
        assert forall|i: int| 0 <= i < d.len() implies '0' <= #[trigger] d[i] <= '9' by {
            if i < d.len() - 1 {
                assert(d[i] == text::decimal(n / 10)[i]);
            }
        }
    } else {
        assert(d.drop_last() =~= Seq::<char>::empty());
        reveal_with_fuel(text::decimal_value, 2);
    }
}

/// A number is read from its digits, perhaps behind a plus sign, where it is
/// not too large. Anything else is none.
pub proof fn law_numbers_are_read(n: nat, max: nat, s: Seq<char>)
    ensures
        n <= max ==> text::number(text::decimal(n), max) == Some(n) && text::number(
            seq!['+'] + text::decimal(n),
            max,
        ) == Some(n),
        n > max ==> text::number(text::decimal(n), max) is None,
        text::number(Seq::empty(), max) is None,
        text::number(s, max) matches Some(v) ==> v <= max && s.len() > 0 && ('0' <= s[0] <= '9'
            || s[0] == '+') && forall|i: int|
            1 <= i < s.len() ==> '0' <= #[trigger] s[i] <= '9',
{
    law_decimal_digits_read_back(n);
    let d = text::decimal(n);
    let p = seq!['+'] + d;
    assert(d[0] != '+');
    assert(text::number_digits(d) == d);
    assert(text::number_digits(p) =~= d);
    let digits = text::number_digits(s);
    if text::number(s, max) is Some {
        assert forall|i: int| 1 <= i < s.len() implies '0' <= #[trigger] s[i] <= '9' by {
            if s[0] == '+' {
                assert(digits[i - 1] == s[i]);
            } else {
                assert(digits[i] == s[i]);
            }
        }
        if s.len() > 0 && s[0] != '+' {
            assert(digits[0] == s[0]);
        }
    }
}

// ---------------------------------------------------------------------------
// URLs
// ---------------------------------------------------------------------------

/// The port part of an authority.
pub open spec fn port_part(port: Option<u16>) -> Seq<char> {
    match port {
        Some(p) => seq![':'] + text::decimal(p as nat),
        None => Seq::empty(),
    }
}

/// The scheme of a URL.
pub open spec fn scheme_part(secure: bool) -> Seq<char> {
    if secure {
        seq!['w', 's', 's', ':', '/', '/']
    } else {
        seq!['w', 's', ':', '/', '/']
    }
}

proof fn lemma_schemes(secure: bool, rest: Seq<char>)
    ensures
        ({
            let url = scheme_part(secure) + rest;
            let n = if secure {
                3int
            } else {
                2int
            };
            &&& client::scheme_len(url) == n
            &&& url.skip(n + 3) == rest
            &&& client::default_port(url.take(n)) == Some(
                if secure {
                    443nat
                } else {
                    80nat
                },
            )
        }),
{
    let url = scheme_part(secure) + rest;
    reveal_with_fuel(client::scheme_len, 5);
    reveal_strlit("ws");
    reveal_strlit("wss");
    if secure {
        assert(url[0] == 'w' && url[1] == 's' && url[2] == 's' && url[3] == ':');
        assert(url.drop_first().drop_first().drop_first() =~= seq![':', '/', '/'] + rest);
        assert(url.drop_first().drop_first() =~= seq!['s', ':', '/', '/'] + rest);
        assert(url.drop_first() =~= seq!['s', 's', ':', '/', '/'] + rest);
        assert(url.take(3) =~= "wss"@);
        assert("wss"@.len() != "ws"@.len());
        assert(url.skip(6) =~= rest);
    } else {
        assert(url[0] == 'w' && url[1] == 's' && url[2] == ':');
        assert(url.drop_first().drop_first() =~= seq![':', '/', '/'] + rest);
        assert(url.drop_first() =~= seq!['s', ':', '/', '/'] + rest);
        assert(url.take(2) =~= "ws"@);
        assert(url.skip(5) =~= rest);
    }
}

proof fn lemma_last(s: Seq<char>, c: char) -> (at: int)
    ensures
        -1 <= at < s.len(),
        forall|i: int| at < i < s.len() ==> #[trigger] s[i] != c,
        at >= 0 ==> s[at] == c && client::last_of(s, c) == Some(at),
        at < 0 ==> client::last_of(s, c) is None,
    decreases s.len(),
{
    if s.len() == 0 {
        -1
    } else if s.last() == c {
        s.len() - 1
    } else {
        let at = lemma_last(s.drop_last(), c);
        assert forall|i: int| at < i < s.len() implies #[trigger] s[i] != c by {
            if i < s.len() - 1 {
                assert(s[i] == s.drop_last()[i]);
            }
        }
        at
    }
}

/// A WebSocket URL leads to its host, to its port, or where it names none to 80
/// or, over TLS, to 443, and to its path, or where it has none to the root.
pub proof fn law_urls_lead_to_host_port_and_path(
    secure: bool,
    host: Seq<char>,
    port: Option<u16>,
    path: Seq<char>,
)
    requires
        host.len() > 0,
        !host.contains('/'),
        port is None ==> !host.contains(':'),
        path.len() > 0 ==> path[0] == '/',
    ensures
        client::url_target(scheme_part(secure) + (host + port_part(port) + path)) == Ok::<
            TargetView,
            Error,
        >(
            TargetView {
                host,
                port: match port {
                    Some(p) => p as nat,
                    None => if secure {
                        443
                    } else {
                        80
                    },
                },
                path: if path.len() > 0 {
                    path
                } else {
                    seq!['/']
                },
            },
        ),
{
    reveal_strlit("/");
    assert("/"@ =~= seq!['/']);
    let authority = host + port_part(port);
    lemma_schemes(secure, authority + path);
    if path.len() == 0 {
        assert(authority + path =~= authority);
    }
    if let Some(p) = port {
        let d = text::decimal(p as nat);
        law_decimal_digits_read_back(p as nat);
        law_numbers_are_read(p as nat, u16::MAX as nat, Seq::empty());
        lemma_only_digits(d);
        assert(authority =~= host + seq![':'] + d);
        lemma_port_authority(host, d, path);
    } else {
        assert(authority =~= host);
        lemma_path_cut(host, path);
        let at = lemma_last(host, ':');
        if at >= 0 {
            assert(host.contains(':'));
        }
    }
}

/// Digits hold neither slashes nor colons.
proof fn lemma_only_digits(d: Seq<char>)
    requires
        forall|i: int| 0 <= i < d.len() ==> '0' <= #[trigger] d[i] <= '9',
    ensures
        !d.contains('/'),
        !d.contains(':'),
{
    if d.contains('/') {
        let i = choose|i: int| 0 <= i < d.len() && d[i] == '/';
        assert('0' <= d[i]);
    }
    if d.contains(':') {
        let i = choose|i: int| 0 <= i < d.len() && d[i] == ':';
        assert(d[i] <= '9');
    }
}

/// A URL without a scheme leads nowhere.
pub proof fn law_urls_have_a_scheme(url: Seq<char>)
    requires
        forall|i: int|
            0 <= i < url.len() - 2 ==> !(#[trigger] url[i] == ':' && url[i + 1] == '/' && url[i + 2]
                == '/'),
    ensures
        client::url_target(url) is Err,
{
    lemma_no_scheme(url);
}

/// A URL without a host leads nowhere, nor does one whose port is no number of
/// a port.
pub proof fn law_urls_have_a_host_and_a_port(
    secure: bool,
    host: Seq<char>,
    port: Seq<char>,
    path: Seq<char>,
)
    requires
        !host.contains('/'),
        !port.contains('/'),
        !port.contains(':'),
        path.len() > 0 ==> path[0] == '/',
    ensures
        client::url_target(scheme_part(secure) + path) is Err,
        host.len() == 0 || text::number(port, 65535) is None ==> client::url_target(
            scheme_part(secure) + (host + seq![':'] + port + path),
        ) is Err,
{
    assert(client::url_target(scheme_part(secure) + path) is Err) by {
        lemma_schemes(secure, path);
        lemma_path_cut(Seq::empty(), path);
        assert(Seq::<char>::empty() + path =~= path);
        lemma_last(Seq::<char>::empty(), ':');
    }
    let authority = host + seq![':'] + port;
    lemma_schemes(secure, authority + path);
    lemma_port_authority(host, port, path);
}

proof fn lemma_no_scheme(url: Seq<char>)
    requires
        forall|i: int|
            0 <= i < url.len() - 2 ==> !(#[trigger] url[i] == ':' && url[i + 1] == '/' && url[i + 2]
                == '/'),
    ensures
        client::scheme_len(url) == url.len(),
    decreases url.len(),
{
    if url.len() > 0 {
        if url.len() >= 3 {
            let z: int = 0;
            assert(!(url[z] == ':' && url[z + 1] == '/' && url[z + 2] == '/'));
        }
        let t = url.drop_first();
        assert forall|i: int| 0 <= i < t.len() - 2 implies !(#[trigger] t[i] == ':' && t[i + 1]
            == '/' && t[i + 2] == '/') by {
            assert(t[i] == url[i + 1] && t[i + 1] == url[i + 2] && t[i + 2] == url[i + 3]);
            assert(!(url[i + 1] == ':' && url[i + 1 + 1] == '/' && url[i + 1 + 2] == '/'));
        }
        lemma_no_scheme(t);
    }
}

/// Where the path of what follows the scheme begins.
proof fn lemma_path_cut(authority: Seq<char>, path: Seq<char>)
    requires
        !authority.contains('/'),
        path.len() > 0 ==> path[0] == '/',
    ensures
        strings::prefix_len(authority + path, '/') == authority.len(),
        (authority + path).take(authority.len() as int) == authority,
        (authority + path).skip(authority.len() as int) == path,
{
    let rest = authority + path;
    if path.len() > 0 {
        let behind = path.skip(1);
        assert(rest =~= authority + seq!['/'] + behind);
        strings::lemma_prefix_len(authority, '/', behind);
    } else {
        assert(rest =~= authority);
        strings::lemma_prefix_len(authority, '/', Seq::empty());
    }
    assert(rest.take(authority.len() as int) =~= authority);
    assert(rest.skip(authority.len() as int) =~= path);
}

proof fn lemma_port_authority(host: Seq<char>, port: Seq<char>, path: Seq<char>)
    requires
        !host.contains('/'),
        !port.contains('/'),
        !port.contains(':'),
        path.len() > 0 ==> path[0] == '/',
    ensures
        ({
            let authority = host + seq![':'] + port;
            &&& strings::prefix_len(authority + path, '/') == authority.len()
            &&& (authority + path).take(authority.len() as int) == authority
            &&& (authority + path).skip(authority.len() as int) == path
            &&& path.len() == 0 ==> authority + path == authority
            &&& client::last_of(authority, ':') == Some(host.len() as int)
            &&& authority.skip(host.len() as int + 1) == port
            &&& authority.take(host.len() as int) == host
        }),
{
    let authority = host + seq![':'] + port;
    assert(!authority.contains('/')) by {
        if authority.contains('/') {
            let i = choose|i: int| 0 <= i < authority.len() && authority[i] == '/';
            if i < host.len() {
                assert(host[i] == '/');
                assert(host.contains('/'));
            } else if i > host.len() {
                assert(port[i - host.len() - 1] == '/');
                assert(port.contains('/'));
            }
        }
    }
    lemma_path_cut(authority, path);
    if path.len() == 0 {
        assert(authority + path =~= authority);
    }
    let at = lemma_last(authority, ':');
    assert(authority[host.len() as int] == ':');
    if at > host.len() {
        assert(port[at - host.len() - 1] == ':');
        assert(port.contains(':'));
    }
    assert(authority.skip(host.len() as int + 1) =~= port);
    assert(authority.take(host.len() as int) =~= host);
}

proof fn lemma_scheme_ends(scheme: Seq<char>, rest: Seq<char>)
    requires
        !scheme.contains(':'),
    ensures
        client::scheme_len(scheme + seq![':', '/', '/'] + rest) == scheme.len(),
    decreases scheme.len(),
{
    let s = scheme + seq![':', '/', '/'] + rest;
    if scheme.len() > 0 {
        assert(s[0] == scheme[0]);
        assert(scheme.contains(scheme[0]));
        let t = scheme.drop_first();
        if t.contains(':') {
            let i = choose|i: int| 0 <= i < t.len() && t[i] == ':';
            assert(scheme[i + 1] == ':');
            assert(scheme.contains(':'));
        }
        lemma_scheme_ends(t, rest);
        assert(s.drop_first() =~= t + seq![':', '/', '/'] + rest);
    }
}

/// A URL of another scheme than ws and wss leads nowhere.
pub proof fn law_other_schemes_are_refused(scheme: Seq<char>, rest: Seq<char>)
    requires
        !scheme.contains(':'),
        scheme != seq!['w', 's'],
        scheme != seq!['w', 's', 's'],
    ensures
        client::url_target(scheme + seq![':', '/', '/'] + rest) is Err,
{
    lemma_scheme_ends(scheme, rest);
    let url = scheme + seq![':', '/', '/'] + rest;
    assert(url.take(scheme.len() as int) =~= scheme);
    reveal_strlit("ws");
    reveal_strlit("wss");
    assert("ws"@ =~= seq!['w', 's']);
    assert("wss"@ =~= seq!['w', 's', 's']);
}

/// The URI of a request over HTTP/2: scheme, authority and path of the URI
/// asked for, with https and the root where these are missing.
pub proof fn law_connect_uris(uri: UriView, authority: Seq<char>, host: Seq<char>)
    ensures
        client::connect_uri(None) is Err,
        uri.authority is None ==> client::connect_uri(Some(uri)) is Err,
        uri.authority == Some((authority, host)) ==> client::connect_uri(Some(uri)) == Ok::<
            Seq<char>,
            Error,
        >(
            (if uri.scheme is Some {
                uri.scheme->0
            } else {
                seq!['h', 't', 't', 'p', 's']
            }) + seq![':', '/', '/'] + authority + (if uri.path_and_query is Some {
                uri.path_and_query->0
            } else {
                seq!['/']
            }),
        ),
{
    reveal_strlit("https");
    reveal_strlit("://");
    reveal_strlit("/");
    assert("https"@ =~= seq!['h', 't', 't', 'p', 's']);
    assert("://"@ =~= seq![':', '/', '/']);
    assert("/"@ =~= seq!['/']);
}

// ---------------------------------------------------------------------------
// Request targets
// ---------------------------------------------------------------------------

/// A target that is a path names the resource, and the Host field the
/// authority.
pub proof fn law_paths_name_resources(target: Seq<char>, host: Seq<char>)
    requires
        target.len() > 0,
        target[0] == '/',
    ensures
        ({
            let uri = Some(
                UriView { scheme: None, authority: None, path_and_query: Some(target) },
            );
            &&& (forall|i: int|
                0 <= i < target.len() && #[trigger] target[i] == '%' ==> i + 2 < target.len()
                    && grammar::hex_digit(target[i + 1]) && grammar::hex_digit(target[i + 2]))
                ==> handshake::target_of(target, host, uri) == Some((target, host))
            &&& (exists|i: int|
                0 <= i < target.len() && #[trigger] target[i] == '%' && !(i + 2 < target.len()
                    && grammar::hex_digit(target[i + 1]) && grammar::hex_digit(target[i + 2])))
                ==> handshake::target_of(target, host, uri) is None
        }),
        handshake::target_of(target, host, None) is None,
{
}

proof fn lemma_after_scheme(scheme: Seq<char>, rest: Seq<char>)
    requires
        !scheme.contains(':'),
    ensures
        handshake::after_scheme(scheme + seq![':', '/', '/'] + rest) == Some(rest),
    decreases scheme.len(),
{
    let s = scheme + seq![':', '/', '/'] + rest;
    if scheme.len() == 0 {
        assert(s.skip(3) =~= rest);
    } else {
        assert(s[0] == scheme[0]);
        assert(scheme.contains(scheme[0]));
        let t = scheme.drop_first();
        if t.contains(':') {
            let i = choose|i: int| 0 <= i < t.len() && t[i] == ':';
            assert(scheme[i + 1] == ':');
            assert(scheme.contains(':'));
        }
        lemma_after_scheme(t, rest);
        assert(s.skip(1) =~= t + seq![':', '/', '/'] + rest);
    }
}

/// A target that is an http or https URI names the authority itself, whatever
/// the Host field says, and the resource behind it: an empty path is the root.
/// Without a host, with user information, with a port that is not made of
/// digits, with a fragment and with another scheme it is refused.
pub proof fn law_absolute_targets(
    scheme: Seq<char>,
    name: Seq<char>,
    port: Seq<char>,
    resource: Seq<char>,
    path: Option<Seq<char>>,
    host: Seq<char>,
)
    requires
        !scheme.contains(':'),
        scheme.len() > 0,
        scheme[0] != '/',
    ensures
        ({
            let authority = name + port;
            let target = scheme + seq![':', '/', '/'] + (authority + resource);
            let uri = Some(
                UriView {
                    scheme: Some(scheme),
                    authority: Some((authority, name)),
                    path_and_query: path,
                },
            );
            let http = strings::lowered(scheme) == "http"@ || strings::lowered(scheme) == "https"@;
            let digits = port.len() == 0 || (port[0] == ':' && forall|i: int|
                1 <= i < port.len() ==> '0' <= #[trigger] port[i] <= '9');
            let good = http && name.len() > 0 && !authority.contains('@') && digits
                && !resource.contains('#') && grammar::percent_encoded(resource);
            let got = handshake::target_of(target, host, uri);
            &&& !good ==> got is None
            &&& good && resource.len() == 0 ==> got == Some((seq!['/'], authority))
            &&& good && resource.len() > 0 && resource[0] == '?' ==> got == Some(
                (seq!['/'] + resource, authority),
            )
            &&& good && resource.len() > 0 && resource[0] != '?' && path == Some(resource) ==> got
                == Some((resource, authority))
            &&& good && resource.len() > 0 && resource[0] != '?' && path != Some(resource)
                ==> got is None
        }),
{
    let authority = name + port;
    let target = scheme + seq![':', '/', '/'] + (authority + resource);
    lemma_after_scheme(scheme, authority + resource);
    assert(target[0] == scheme[0]);
    assert(authority.skip(name.len() as int) =~= port);
    assert((authority + resource).skip(authority.len() as int) =~= resource);
    assert(authority.is_prefix_of(authority + resource)) by {
        assert((authority + resource).subrange(0, authority.len() as int) =~= authority);
    }
    reveal_strlit("http");
    reveal_strlit("https");
    reveal_strlit("/");
    assert(strings::lowered("http"@) =~= "http"@);
    assert(strings::lowered("https"@) =~= "https"@);
    assert("/"@ =~= seq!['/']);
    if handshake::port_suffix(port) {
        assert forall|i: int| 1 <= i < port.len() implies '0' <= #[trigger] port[i] <= '9' by {}
    }
}

// ---------------------------------------------------------------------------
// What is written
// ---------------------------------------------------------------------------

/// Whether a name is one that the handshake writes itself, or that frames a
/// body, in whatever case.
pub open spec fn kept_name(name: Seq<char>) -> bool {
    let n = strings::lowered(name);
    ||| n == "host"@
    ||| n == "upgrade"@
    ||| n == "connection"@
    ||| n == "sec-websocket-key"@
    ||| n == "sec-websocket-version"@
    ||| n == "sec-websocket-protocol"@
    ||| n == "sec-websocket-extensions"@
    ||| n == "content-length"@
    ||| n == "transfer-encoding"@
}

proof fn lemma_kept_names(name: Seq<char>)
    ensures
        handshake::reserved_header(name) <==> kept_name(name),
{
    reveal_strlit("host");
    reveal_strlit("upgrade");
    reveal_strlit("connection");
    reveal_strlit("sec-websocket-key");
    reveal_strlit("sec-websocket-version");
    reveal_strlit("sec-websocket-protocol");
    reveal_strlit("sec-websocket-extensions");
    reveal_strlit("content-length");
    reveal_strlit("transfer-encoding");
    assert(strings::lowered("host"@) =~= "host"@);
    assert(strings::lowered("upgrade"@) =~= "upgrade"@);
    assert(strings::lowered("connection"@) =~= "connection"@);
    assert(strings::lowered("sec-websocket-key"@) =~= "sec-websocket-key"@);
    assert(strings::lowered("sec-websocket-version"@) =~= "sec-websocket-version"@);
    assert(strings::lowered("sec-websocket-protocol"@) =~= "sec-websocket-protocol"@);
    assert(strings::lowered("sec-websocket-extensions"@) =~= "sec-websocket-extensions"@);
    assert(strings::lowered("content-length"@) =~= "content-length"@);
    assert(strings::lowered("transfer-encoding"@) =~= "transfer-encoding"@);
}

/// The fields that a caller adds to a request are taken exactly where every name
/// is a token that the handshake does not write itself, and every value may
/// stand in a header.
pub proof fn law_added_fields_are_checked(headers: Seq<(Seq<char>, Seq<char>)>)
    ensures
        handshake::extra_headers_error(headers) is None <==> forall|i: int|
            0 <= i < headers.len() ==> grammar::token((#[trigger] headers[i]).0) && !kept_name(
                headers[i].0,
            ) && grammar::header_value(headers[i].1),
    decreases headers.len(),
{
    if headers.len() > 0 {
        lemma_kept_names(headers[0].0);
        let rest = headers.drop_first();
        law_added_fields_are_checked(rest);
        assert forall|i: int| 0 <= i < rest.len() implies #[trigger] rest[i] == headers[i + 1] by {}
        if handshake::extra_headers_error(headers) is None {
            assert forall|i: int| 0 <= i < headers.len() implies grammar::token(
                (#[trigger] headers[i]).0,
            ) && !kept_name(headers[i].0) && grammar::header_value(headers[i].1) by {
                if i > 0 {
                    assert(rest[i - 1] == headers[i]);
                }
            }
        } else if forall|i: int|
            0 <= i < headers.len() ==> grammar::token((#[trigger] headers[i]).0) && !kept_name(
                headers[i].0,
            ) && grammar::header_value(headers[i].1) {
            assert(grammar::token(headers[0].0));
            assert forall|i: int| 0 <= i < rest.len() implies grammar::token(
                (#[trigger] rest[i]).0,
            ) && !kept_name(rest[i].0) && grammar::header_value(rest[i].1) by {
                assert(rest[i] == headers[i + 1]);
            }
        }
    }
}

/// A request is built exactly where its host may stand in a header and is not
/// empty, its target has neither blanks nor control characters, its key is the
/// text of sixteen bytes, what it offers are lists without empty elements, and
/// the fields that were added are taken.
pub proof fn law_requests_are_checked(
    host: Seq<char>,
    path: Seq<char>,
    key: Seq<char>,
    protocol: Option<Seq<char>>,
    extensions: Option<Seq<char>>,
    extra: Seq<(Seq<char>, Seq<char>)>,
)
    ensures
        handshake::request_error(host, path, key, protocol, extensions, extra) is None <==> {
            &&& host.len() > 0
            &&& forall|i: int|
                0 <= i < host.len() ==> #[trigger] host[i] == '\t' || (host[i] >= ' ' && host[i]
                    != '\u{7f}')
            &&& forall|i: int|
                0 <= i < path.len() ==> #[trigger] path[i] > ' ' && path[i] != '\u{7f}'
            &&& handshake::encodes_sixteen_bytes(key)
            &&& protocol matches Some(p) ==> grammar::protocol_list(p) && !grammar::lists_nothing(p)
            &&& extensions matches Some(e) ==> grammar::extension_list(e)
                && !grammar::lists_nothing(e)
            &&& handshake::extra_headers_error(extra) is None
        },
{
    if grammar::header_value(host) {
        assert forall|i: int| 0 <= i < host.len() implies #[trigger] host[i] == '\t' || (host[i]
            >= ' ' && host[i] != '\u{7f}') by {
            assert(grammar::value_char(host[i]));
        }
    }
    if forall|i: int|
        0 <= i < host.len() ==> #[trigger] host[i] == '\t' || (host[i] >= ' ' && host[i]
            != '\u{7f}') {
        assert forall|i: int| 0 <= i < host.len() implies grammar::value_char(
            #[trigger] host[i],
        ) by {}
    }
}

/// The text of a response, line by line.
pub proof fn law_response_lines(
    accept: Seq<char>,
    protocol: Option<Seq<char>>,
    extensions: Option<Seq<char>>,
)
    ensures
        handshake::response_text(accept, protocol, extensions)
            == "HTTP/1.1 101 Switching Protocols\r\nUpgrade: websocket\r\nConnection: Upgrade\r\nSec-WebSocket-Accept: "@
            + accept + "\r\n"@ + (if protocol is Some {
            "Sec-WebSocket-Protocol: "@ + protocol->0 + "\r\n"@
        } else {
            Seq::empty()
        }) + (if extensions is Some {
            "Sec-WebSocket-Extensions: "@ + extensions->0 + "\r\n"@
        } else {
            Seq::empty()
        }) + "\r\n"@,
{
    reveal_strlit("HTTP/1.1 101 Switching Protocols\r\n");
    reveal_strlit("Upgrade");
    reveal_strlit("websocket");
    reveal_strlit("Connection");
    reveal_strlit("Sec-WebSocket-Accept");
    reveal_strlit(": ");
    reveal_strlit("\r\n");
    reveal_strlit("Sec-WebSocket-Protocol");
    reveal_strlit("Sec-WebSocket-Protocol: ");
    reveal_strlit("Sec-WebSocket-Extensions");
    reveal_strlit("Sec-WebSocket-Extensions: ");
    reveal_strlit(
        "HTTP/1.1 101 Switching Protocols\r\nUpgrade: websocket\r\nConnection: Upgrade\r\nSec-WebSocket-Accept: ",
    );
    let start = "HTTP/1.1 101 Switching Protocols\r\n"@ + handshake::header_line(
        "Upgrade"@,
        "websocket"@,
    ) + handshake::header_line("Connection"@, "Upgrade"@) + ("Sec-WebSocket-Accept"@ + ": "@);
    assert(start
        =~= "HTTP/1.1 101 Switching Protocols\r\nUpgrade: websocket\r\nConnection: Upgrade\r\nSec-WebSocket-Accept: "@);
    assert("Sec-WebSocket-Protocol"@ + ": "@ =~= "Sec-WebSocket-Protocol: "@);
    assert("Sec-WebSocket-Extensions"@ + ": "@ =~= "Sec-WebSocket-Extensions: "@);
    assert(handshake::response_text(accept, protocol, extensions) =~= start + accept + "\r\n"@
        + handshake::optional_line("Sec-WebSocket-Protocol"@, protocol) + handshake::optional_line(
        "Sec-WebSocket-Extensions"@,
        extensions,
    ) + "\r\n"@);
}

/// The text of a request, line by line.
pub proof fn law_request_lines(
    host: Seq<char>,
    path: Seq<char>,
    key: Seq<char>,
    protocol: Option<Seq<char>>,
    extensions: Option<Seq<char>>,
    extra: Seq<(Seq<char>, Seq<char>)>,
    more: (Seq<char>, Seq<char>),
)
    ensures
        handshake::request_text(host, path, key, protocol, extensions, extra) == "GET "@ + path
            + " HTTP/1.1\r\nHost: "@ + host
            + "\r\nUpgrade: websocket\r\nConnection: Upgrade\r\nSec-WebSocket-Key: "@ + key
            + "\r\nSec-WebSocket-Version: 13\r\n"@ + (if protocol is Some {
            "Sec-WebSocket-Protocol: "@ + protocol->0 + "\r\n"@
        } else {
            Seq::empty()
        }) + (if extensions is Some {
            "Sec-WebSocket-Extensions: "@ + extensions->0 + "\r\n"@
        } else {
            Seq::empty()
        }) + handshake::header_lines(extra) + "\r\n"@,
        handshake::header_lines(Seq::empty()) == Seq::<char>::empty(),
        handshake::header_lines(extra.push(more)) == handshake::header_lines(extra) + more.0
            + ": "@ + more.1 + "\r\n"@,
{
    reveal_strlit("GET ");
    reveal_strlit(" HTTP/1.1\r\n");
    reveal_strlit(" HTTP/1.1\r\nHost: ");
    reveal_strlit("Host");
    reveal_strlit("Upgrade");
    reveal_strlit("websocket");
    reveal_strlit("Connection");
    reveal_strlit("Sec-WebSocket-Key");
    reveal_strlit("Sec-WebSocket-Version");
    reveal_strlit("13");
    reveal_strlit(": ");
    reveal_strlit("\r\n");
    reveal_strlit("Sec-WebSocket-Protocol");
    reveal_strlit("Sec-WebSocket-Protocol: ");
    reveal_strlit("Sec-WebSocket-Extensions");
    reveal_strlit("Sec-WebSocket-Extensions: ");
    reveal_strlit("\r\nUpgrade: websocket\r\nConnection: Upgrade\r\nSec-WebSocket-Key: ");
    reveal_strlit("\r\nSec-WebSocket-Version: 13\r\n");
    let first = " HTTP/1.1\r\n"@ + ("Host"@ + ": "@);
    assert(first =~= " HTTP/1.1\r\nHost: "@);
    let second = "\r\n"@ + handshake::header_line("Upgrade"@, "websocket"@)
        + handshake::header_line("Connection"@, "Upgrade"@) + ("Sec-WebSocket-Key"@ + ": "@);
    assert(second =~= "\r\nUpgrade: websocket\r\nConnection: Upgrade\r\nSec-WebSocket-Key: "@);
    let third = "\r\n"@ + handshake::header_line("Sec-WebSocket-Version"@, "13"@);
    assert(third =~= "\r\nSec-WebSocket-Version: 13\r\n"@);
    assert("Sec-WebSocket-Protocol"@ + ": "@ =~= "Sec-WebSocket-Protocol: "@);
    assert("Sec-WebSocket-Extensions"@ + ": "@ =~= "Sec-WebSocket-Extensions: "@);
    assert(handshake::request_text(host, path, key, protocol, extensions, extra) =~= "GET "@ + path
        + first + host + second + key + third + handshake::optional_line(
        "Sec-WebSocket-Protocol"@,
        protocol,
    ) + handshake::optional_line("Sec-WebSocket-Extensions"@, extensions)
        + handshake::header_lines(extra) + "\r\n"@);
    assert(extra.push(more).drop_last() =~= extra);
    assert(handshake::header_lines(extra.push(more)) =~= handshake::header_lines(extra) + more.0
        + ": "@ + more.1 + "\r\n"@);
}

} // verus!
