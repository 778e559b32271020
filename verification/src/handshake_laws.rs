//! What the two sides of a handshake promise each other.
use crate::buffer::BufferView;
use crate::error::Error;
use crate::grammar;
use crate::handshake;
use crate::handshake::{RequestFieldsView, RequestHeadView, RequestView, ResponseHeadView};
use crate::handshake::{ResponseFieldsView, ResponseView, ResultView, UriView};
use crate::handshake::{ServerAnswer, WrittenRequest, WrittenResponse};
use crate::strings;
use vstd::prelude::*;
use vstd::utf8::*;

verus! {

// ---------------------------------------------------------------------------
// Requests hold no lines but their own
// ---------------------------------------------------------------------------

/// A character that is no separator lies in one of the parts.
proof fn lemma_char_in_part(s: Seq<char>, sep: char, c: char)
    requires
        s.contains(c),
        c != sep,
    ensures
        exists|i: int|
            0 <= i < strings::split_on(s, sep).len() && (#[trigger] strings::split_on(
                s,
                sep,
            )[i]).contains(c),
    decreases s.len(),
{
    let n = strings::prefix_len(s, sep);
    let parts = strings::split_on(s, sep);
    if n >= s.len() {
        assert(parts[0].contains(c));
    } else {
        lemma_prefix_len_char(s, sep);
        let k = choose|k: int| 0 <= k < s.len() && s[k] == c;
        let head = s.take(n as int);
        let tail = s.skip(n as int + 1);
        if k < n {
            assert(head[k] == c);
            assert(parts[0].contains(c));
        } else {
            assert(k > n);
            assert(tail[k - n - 1] == c);
            lemma_char_in_part(tail, sep, c);
            let rest = strings::split_on(tail, sep);
            let i = choose|i: int| 0 <= i < rest.len() && (#[trigger] rest[i]).contains(c);
            assert(parts[i + 1] == rest[i]);
        }
    }
}

proof fn lemma_prefix_len_char(s: Seq<char>, sep: char)
    ensures
        strings::prefix_len(s, sep) <= s.len(),
        strings::prefix_len(s, sep) < s.len() ==> s[strings::prefix_len(s, sep) as int] == sep,
    decreases s.len(),
{
    if s.len() > 0 && s[0] != sep {
        lemma_prefix_len_char(s.drop_first(), sep);
    }
}

/// A character that is no whitespace stays when whitespace is trimmed.
proof fn lemma_char_after_trim(s: Seq<char>, c: char)
    requires
        s.contains(c),
        !strings::is_ows(c),
    ensures
        strings::trimmed_ows(s).contains(c),
{
    let blank = |x: char| strings::is_ows(x);
    lemma_char_after_trim_front(s, blank, c);
    lemma_char_after_trim_back(strings::trim_front(s, blank), blank, c);
}

proof fn lemma_char_after_trim_front(s: Seq<char>, blank: spec_fn(char) -> bool, c: char)
    requires
        s.contains(c),
        !blank(c),
    ensures
        strings::trim_front(s, blank).contains(c),
    decreases s.len(),
{
    if s.len() > 0 && blank(s[0]) {
        let k = choose|k: int| 0 <= k < s.len() && s[k] == c;
        assert(s.drop_first()[k - 1] == c);
        lemma_char_after_trim_front(s.drop_first(), blank, c);
    }
}

proof fn lemma_char_after_trim_back(s: Seq<char>, blank: spec_fn(char) -> bool, c: char)
    requires
        s.contains(c),
        !blank(c),
    ensures
        strings::trim_back(s, blank).contains(c),
    decreases s.len(),
{
    if s.len() > 0 && blank(s.last()) {
        let k = choose|k: int| 0 <= k < s.len() && s[k] == c;
        assert(s.drop_last()[k] == c);
        lemma_char_after_trim_back(s.drop_last(), blank, c);
    }
}

/// A character that is neither a comma nor whitespace lies in an element of a list.
proof fn lemma_char_in_element(s: Seq<char>, c: char)
    requires
        s.contains(c),
        c != ',',
        !strings::is_ows(c),
    ensures
        exists|i: int|
            0 <= i < grammar::elements(s).len() && (#[trigger] grammar::elements(s)[i]).contains(c),
{
    lemma_char_in_part(s, ',', c);
    let parts = strings::split_on(s, ',');
    let i = choose|i: int| 0 <= i < parts.len() && (#[trigger] parts[i]).contains(c);
    lemma_char_after_trim(parts[i], c);
    assert(grammar::elements(s)[i] == strings::trimmed_ows(parts[i]));
}

proof fn lemma_quoted_token_char(s: Seq<char>, c: char)
    requires
        grammar::quoted_token(s),
        s.contains(c),
    ensures
        grammar::token_char(c) || c == '\\',
    decreases s.len(),
{
    let k = choose|k: int| 0 <= k < s.len() && s[k] == c;
    if s[0] == '\\' {
        if k >= 2 {
            assert(s.skip(2)[k - 2] == c);
            lemma_quoted_token_char(s.skip(2), c);
        }
    } else if k >= 1 {
        assert(s.skip(1)[k - 1] == c);
        lemma_quoted_token_char(s.skip(1), c);
    }
}

/// A carriage return or a line feed.
pub open spec fn line_break(c: char) -> bool {
    c == '\r' || c == '\n'
}

/// Whether a text lies within a line.
pub open spec fn within_line(s: Seq<char>) -> bool {
    forall|i: int| 0 <= i < s.len() ==> !line_break(#[trigger] s[i])
}

proof fn lemma_extension_param_is_value(p: Seq<char>, c: char)
    requires
        grammar::extension_param(p),
        !grammar::value_char(c),
    ensures
        !p.contains(c),
{
    if p.contains(c) {
        let n = strings::prefix_len(p, '=') as int;
        let k = choose|k: int| 0 <= k < p.len() && p[k] == c;
        if n < p.len() {
            lemma_prefix_len_char(p, '=');
            let name = p.take(n);
            let value = p.skip(n + 1);
            if k < n {
                assert(name[k] == c);
                lemma_char_after_trim(name, c);
            } else {
                assert(value[k - n - 1] == c);
                lemma_char_after_trim(value, c);
                let v = strings::trimmed_ows(value);
                if !grammar::token(v) {
                    let m = choose|m: int| 0 <= m < v.len() && v[m] == c;
                    let inner = v.subrange(1, v.len() - 1);
                    assert(inner[m - 1] == c);
                    lemma_quoted_token_char(inner, c);
                }
            }
        }
    }
}

proof fn lemma_extension_is_value(e: Seq<char>, c: char)
    requires
        grammar::extension(e),
        !grammar::value_char(c),
    ensures
        !e.contains(c),
{
    if e.contains(c) {
        lemma_char_in_part(e, ';', c);
        let parts = strings::split_on(e, ';');
        let i = choose|i: int| 0 <= i < parts.len() && (#[trigger] parts[i]).contains(c);
        lemma_char_after_trim(parts[i], c);
        if i > 0 {
            lemma_extension_param_is_value(strings::trimmed_ows(parts[i]), c);
        }
    }
}

proof fn lemma_protocol_list_is_value(s: Seq<char>)
    requires
        grammar::protocol_list(s),
    ensures
        grammar::header_value(s),
{
    assert forall|i: int| 0 <= i < s.len() implies grammar::value_char(#[trigger] s[i]) by {
        if !grammar::value_char(s[i]) {
            assert(s.contains(s[i]));
            lemma_char_in_element(s, s[i]);
        }
    }
}

proof fn lemma_extension_list_is_value(s: Seq<char>)
    requires
        grammar::extension_list(s),
    ensures
        grammar::header_value(s),
{
    assert forall|i: int| 0 <= i < s.len() implies grammar::value_char(#[trigger] s[i]) by {
        if !grammar::value_char(s[i]) {
            let c = s[i];
            assert(s.contains(c));
            lemma_char_in_element(s, c);
            let e = grammar::elements(s);
            let j = choose|j: int| 0 <= j < e.len() && (#[trigger] e[j]).contains(c);
            lemma_extension_is_value(e[j], c);
        }
    }
}

proof fn lemma_base64_is_value(s: Seq<char>)
    requires
        handshake::base64_chars(s),
    ensures
        grammar::header_value(s),
        handshake::unpadded(s),
{
    assert forall|i: int| 0 <= i < s.len() implies grammar::value_char(#[trigger] s[i])
        && !strings::is_ows(s[i]) by {
        assert(handshake::base64_value(s[i]) is Some || s[i] == '=');
    }
    if s.len() > 0 {
        assert(!strings::is_ows(s[0]) && !strings::is_ows(s[s.len() - 1]));
    }
    lemma_unpadded(s);
}

/// A text that neither begins nor ends with a blank.
proof fn lemma_unpadded(s: Seq<char>)
    requires
        s.len() > 0 ==> !strings::is_ows(s[0]) && !strings::is_ows(s.last()),
    ensures
        handshake::unpadded(s),
{
    if s.len() > 0 {
        strings::lemma_trim_range(s, |c: char| strings::is_ows(c), 0, s.len() as int);
        assert(s.subrange(0, s.len() as int) =~= s);
    }
}

proof fn lemma_trim_front_part(s: Seq<char>, blank: spec_fn(char) -> bool)
    ensures
        forall|i: int|
            0 <= i < strings::trim_front(s, blank).len() ==> s.contains(
                #[trigger] strings::trim_front(s, blank)[i],
            ),
    decreases s.len(),
{
    if s.len() > 0 && blank(s[0]) {
        lemma_trim_front_part(s.drop_first(), blank);
        let t = strings::trim_front(s.drop_first(), blank);
        assert(strings::trim_front(s, blank) == t);
        assert forall|i: int| 0 <= i < t.len() implies s.contains(#[trigger] t[i]) by {
            assert(s.drop_first().contains(t[i]));
            let k = choose|k: int| 0 <= k < s.drop_first().len() && s.drop_first()[k] == t[i];
            assert(s[k + 1] == t[i]);
        }
    }
}

proof fn lemma_trim_back_part(s: Seq<char>, blank: spec_fn(char) -> bool)
    ensures
        forall|i: int|
            0 <= i < strings::trim_back(s, blank).len() ==> s.contains(
                #[trigger] strings::trim_back(s, blank)[i],
            ),
    decreases s.len(),
{
    if s.len() > 0 && blank(s.last()) {
        lemma_trim_back_part(s.drop_last(), blank);
        let t = strings::trim_back(s.drop_last(), blank);
        assert(strings::trim_back(s, blank) == t);
        assert forall|i: int| 0 <= i < t.len() implies s.contains(#[trigger] t[i]) by {
            assert(s.drop_last().contains(t[i]));
            let k = choose|k: int| 0 <= k < s.drop_last().len() && s.drop_last()[k] == t[i];
            assert(s[k] == t[i]);
        }
    }
}

/// Trimming adds no characters.
proof fn lemma_trimmed_value(s: Seq<char>)
    requires
        grammar::header_value(s),
    ensures
        grammar::header_value(strings::trimmed_ows(s)),
{
    let blank = |c: char| strings::is_ows(c);
    let front = strings::trim_front(s, blank);
    lemma_trim_front_part(s, blank);
    lemma_trim_back_part(front, blank);
    let t = strings::trimmed_ows(s);
    assert forall|i: int| 0 <= i < t.len() implies grammar::value_char(#[trigger] t[i]) by {
        assert(front.contains(t[i]));
        let k = choose|k: int| 0 <= k < front.len() && front[k] == t[i];
        assert(s.contains(front[k]));
    }
}

/// What may stand as a header value lies within a line.
proof fn lemma_value_within_line(s: Seq<char>)
    requires
        grammar::header_value(s),
    ensures
        within_line(s),
{
}

proof fn lemma_extra_header(headers: Seq<(Seq<char>, Seq<char>)>, i: int)
    requires
        handshake::extra_headers_error(headers) is None,
        0 <= i < headers.len(),
    ensures
        handshake::extra_header_error(headers[i]) is None,
    decreases headers.len(),
{
    if i > 0 {
        lemma_extra_header(headers.drop_first(), i - 1);
    }
}

/// A request that the checked builder accepts has each of its texts within a
/// line: nothing that a caller supplies can add a line of its own.
pub proof fn law_checked_request_adds_no_lines(
    host: Seq<char>,
    path: Seq<char>,
    key: Seq<char>,
    protocol: Option<Seq<char>>,
    extensions: Option<Seq<char>>,
    extra: Seq<(Seq<char>, Seq<char>)>,
)
    requires
        handshake::request_error(host, path, key, protocol, extensions, extra) is None,
    ensures
        within_line(host),
        within_line(path),
        within_line(key),
        protocol matches Some(p) ==> within_line(p),
        extensions matches Some(e) ==> within_line(e),
        forall|i: int|
            0 <= i < extra.len() ==> within_line((#[trigger] extra[i]).0) && within_line(
                extra[i].1,
            ),
{
    if let Some(p) = protocol {
        lemma_protocol_list_is_value(p);
        lemma_value_within_line(p);
    }
    if let Some(e) = extensions {
        lemma_extension_list_is_value(e);
        lemma_value_within_line(e);
    }
    assert forall|i: int| 0 <= i < key.len() implies !line_break(#[trigger] key[i]) by {
        if i < 22 {
            assert(handshake::base64_value(key[i]) is Some);
        }
    }
    assert forall|i: int| 0 <= i < extra.len() implies within_line((#[trigger] extra[i]).0)
        && within_line(extra[i].1) by {
        lemma_extra_header(extra, i);
    }
}

// ---------------------------------------------------------------------------
// What one side writes, the other accepts
// ---------------------------------------------------------------------------

/// A header field as it stands on the wire.
pub open spec fn field(name: Seq<char>, value: Seq<char>) -> (Seq<char>, Seq<u8>) {
    (name, encode_utf8(value))
}

/// A header field that may be missing.
pub open spec fn optional_field(name: Seq<char>, value: Option<Seq<char>>) -> Seq<
    (Seq<char>, Seq<u8>),
> {
    match value {
        Some(v) => seq![field(name, v)],
        None => seq![],
    }
}

/// The header fields of the response that a server writes.
pub open spec fn written_response_fields(
    accept: Seq<char>,
    protocol: Option<Seq<char>>,
    extensions: Option<Seq<char>>,
) -> Seq<(Seq<char>, Seq<u8>)> {
    seq![
        field("Upgrade"@, "websocket"@),
        field("Connection"@, "Upgrade"@),
        field("Sec-WebSocket-Accept"@, accept),
    ] + optional_field("Sec-WebSocket-Protocol"@, protocol) + optional_field(
        "Sec-WebSocket-Extensions"@,
        extensions,
    )
}

/// The header fields of the request that a client writes, before those that
/// its user adds.
pub open spec fn written_request_fields(
    host: Seq<char>,
    key: Seq<char>,
    protocol: Option<Seq<char>>,
    extensions: Option<Seq<char>>,
) -> Seq<(Seq<char>, Seq<u8>)> {
    seq![
        field("Host"@, host),
        field("Upgrade"@, "websocket"@),
        field("Connection"@, "Upgrade"@),
        field("Sec-WebSocket-Key"@, key),
        field("Sec-WebSocket-Version"@, "13"@),
    ] + optional_field("Sec-WebSocket-Protocol"@, protocol) + optional_field(
        "Sec-WebSocket-Extensions"@,
        extensions,
    )
}

proof fn lemma_field(value: Seq<char>)
    ensures
        valid_utf8(encode_utf8(value)),
        decode_utf8(encode_utf8(value)) == value,
{
    encode_utf8_valid_utf8(value);
    encode_utf8_decode_utf8(value);
}

proof fn lemma_lower(s: Seq<char>, t: Seq<char>)
    requires
        s.len() == t.len(),
        forall|i: int| 0 <= i < s.len() ==> strings::lower(#[trigger] s[i]) == strings::lower(t[i]),
    ensures
        strings::lowered(s) == strings::lowered(t),
{
    assert(strings::lowered(s) =~= strings::lowered(t));
}

/// A list of one word without blanks lists that word.
proof fn lemma_one_word(s: Seq<char>)
    requires
        s.len() > 0,
        !s.contains(','),
        !strings::is_ows(s[0]),
        !strings::is_ows(s.last()),
    ensures
        grammar::elements(s) == seq![s],
{
    strings::lemma_prefix_len(s, ',', seq![]);
    strings::lemma_trim_range(s, |c: char| strings::is_ows(c), 0, s.len() as int);
    assert(s.subrange(0, s.len() as int) =~= s);
    assert(grammar::elements(s) =~= seq![s]);
}

proof fn lemma_request_names()
    ensures
        strings::lowered("Host"@) == strings::lowered("host"@),
        strings::lowered("Upgrade"@) == strings::lowered("upgrade"@),
        strings::lowered("Connection"@) == strings::lowered("connection"@),
        strings::lowered("Sec-WebSocket-Key"@) == strings::lowered("sec-websocket-key"@),
        strings::lowered("Sec-WebSocket-Version"@) == strings::lowered("sec-websocket-version"@),
        strings::lowered("Sec-WebSocket-Protocol"@) == strings::lowered("sec-websocket-protocol"@),
        strings::lowered("Sec-WebSocket-Extensions"@) == strings::lowered(
            "sec-websocket-extensions"@,
        ),
        strings::lowered("host"@).len() == 4,
        strings::lowered("origin"@).len() == 6,
        strings::lowered("upgrade"@).len() == 7,
        strings::lowered("connection"@).len() == 10,
        strings::lowered("sec-websocket-key"@).len() == 17,
        strings::lowered("sec-websocket-version"@).len() == 21,
        strings::lowered("sec-websocket-protocol"@).len() == 22,
        strings::lowered("sec-websocket-extensions"@).len() == 24,
        strings::lowered("Sec-WebSocket-Accept"@) == strings::lowered("sec-websocket-accept"@),
        strings::lowered("sec-websocket-accept"@).len() == 20,
{
    reveal_strlit("Host");
    reveal_strlit("host");
    reveal_strlit("origin");
    reveal_strlit("Upgrade");
    reveal_strlit("upgrade");
    reveal_strlit("Connection");
    reveal_strlit("connection");
    reveal_strlit("Sec-WebSocket-Key");
    reveal_strlit("sec-websocket-key");
    reveal_strlit("Sec-WebSocket-Version");
    reveal_strlit("sec-websocket-version");
    reveal_strlit("Sec-WebSocket-Protocol");
    reveal_strlit("sec-websocket-protocol");
    reveal_strlit("Sec-WebSocket-Extensions");
    reveal_strlit("sec-websocket-extensions");
    reveal_strlit("Sec-WebSocket-Accept");
    reveal_strlit("sec-websocket-accept");
    lemma_lower("Host"@, "host"@);
    lemma_lower("Upgrade"@, "upgrade"@);
    lemma_lower("Connection"@, "connection"@);
    lemma_lower("Sec-WebSocket-Key"@, "sec-websocket-key"@);
    lemma_lower("Sec-WebSocket-Version"@, "sec-websocket-version"@);
    lemma_lower("Sec-WebSocket-Protocol"@, "sec-websocket-protocol"@);
    lemma_lower("Sec-WebSocket-Extensions"@, "sec-websocket-extensions"@);
    lemma_lower("Sec-WebSocket-Accept"@, "sec-websocket-accept"@);
}

proof fn lemma_upgrade_words()
    ensures
        grammar::lists_word("websocket"@, "websocket"@),
        grammar::lists_word("Upgrade"@, "upgrade"@),
{
    reveal_strlit("websocket");
    reveal_strlit("Upgrade");
    lemma_request_names();
    lemma_one_word("websocket"@);
    lemma_one_word("Upgrade"@);
    assert(grammar::elements("websocket"@)[0] == "websocket"@);
    assert(grammar::elements("Upgrade"@)[0] == "Upgrade"@);
}

/// One more field of a response, or none.
proof fn lemma_response_push(headers: Seq<(Seq<char>, Seq<u8>)>, name: Seq<char>, value: Seq<char>)
    requires
        handshake::response_fields(headers) is Ok,
    ensures
        handshake::response_fields(headers.push(field(name, value)))
            == handshake::with_response_field(
            handshake::response_fields(headers)->Ok_0,
            name,
            encode_utf8(value),
        ),
        valid_utf8(encode_utf8(value)),
        decode_utf8(encode_utf8(value)) == value,
{
    lemma_field(value);
    assert(headers.push(field(name, value)).drop_last() =~= headers);
}

/// What the fields of a written response say.
proof fn lemma_written_response(
    accept: Seq<char>,
    protocol: Option<Seq<char>>,
    extensions: Option<Seq<char>>,
)
    requires
        protocol matches Some(p) ==> grammar::token(p),
        extensions matches Some(e) ==> grammar::extension_list(e),
    ensures
        handshake::response_fields(written_response_fields(accept, protocol, extensions)) == Ok::<
            ResponseFieldsView,
            Error,
        >(
            ResponseFieldsView {
                accept: Some(accept),
                protocol,
                extensions,
                upgrade: true,
                connection_upgrade: true,
            },
        ),
{
    lemma_request_names();
    lemma_upgrade_words();
    let h0 = Seq::<(Seq<char>, Seq<u8>)>::empty();
    lemma_response_push(h0, "Upgrade"@, "websocket"@);
    let h1 = h0.push(field("Upgrade"@, "websocket"@));
    lemma_response_push(h1, "Connection"@, "Upgrade"@);
    let h2 = h1.push(field("Connection"@, "Upgrade"@));
    lemma_response_push(h2, "Sec-WebSocket-Accept"@, accept);
    let h3 = h2.push(field("Sec-WebSocket-Accept"@, accept));
    let h4 = match protocol {
        Some(p) => {
            lemma_response_push(h3, "Sec-WebSocket-Protocol"@, p);
            h3.push(field("Sec-WebSocket-Protocol"@, p))
        },
        None => h3,
    };
    let h5 = match extensions {
        Some(e) => {
            lemma_response_push(h4, "Sec-WebSocket-Extensions"@, e);
            h4.push(field("Sec-WebSocket-Extensions"@, e))
        },
        None => h4,
    };
    assert(written_response_fields(accept, protocol, extensions) =~= h5);
}

/// A client accepts the answer of a server that has read its key: where the
/// head of the answer has the fields that a server writes for the key, and the
/// selected subprotocol was offered, the handshake succeeds with what the
/// server selected.
pub proof fn law_client_accepts_server_answer(
    head: ResponseHeadView,
    key: Seq<char>,
    protocol: Option<Seq<char>>,
    extensions: Option<Seq<char>>,
    buf: Seq<u8>,
    path: Seq<char>,
    offered: Option<Seq<char>>,
)
    requires
        head.len <= handshake::MAX_HEADER_SIZE,
        head.code == Some(101u16),
        head.version == Some(1u8),
        head.headers == written_response_fields(handshake::accept_key(key), protocol, extensions),
        protocol matches Some(p) ==> grammar::token(p),
        extensions matches Some(e) ==> grammar::extension_list(e),
        handshake::selection_allowed(offered, protocol),
    ensures
        handshake::response_of(head) is Ok,
        handshake::accepted(
            handshake::response_of(head)->Ok_0,
            head.len,
            buf,
            key,
            path,
            offered,
        ) == Ok::<ResultView, Error>(
            ResultView {
                path,
                protocol,
                extensions,
                leftover: handshake::left_over(buf, head.len),
            },
        ),
{
    lemma_written_response(handshake::accept_key(key), protocol, extensions);
}

/// A client refuses an answer that does not prove that its key was read.
pub proof fn law_client_refuses_other_accept_keys(
    head: ResponseHeadView,
    accept: Seq<char>,
    key: Seq<char>,
    protocol: Option<Seq<char>>,
    extensions: Option<Seq<char>>,
    buf: Seq<u8>,
    path: Seq<char>,
    offered: Option<Seq<char>>,
)
    requires
        head.len <= handshake::MAX_HEADER_SIZE,
        head.code == Some(101u16),
        head.version == Some(1u8),
        head.headers == written_response_fields(accept, protocol, extensions),
        protocol matches Some(p) ==> grammar::token(p),
        extensions matches Some(e) ==> grammar::extension_list(e),
        accept != handshake::accept_key(key),
    ensures
        handshake::response_of(head) is Ok,
        handshake::accepted(
            handshake::response_of(head)->Ok_0,
            head.len,
            buf,
            key,
            path,
            offered,
        ) == Err::<ResultView, Error>(Error::HandshakeFailed("invalid Sec-WebSocket-Accept")),
{
    lemma_written_response(accept, protocol, extensions);
}

/// The header fields that the user of a client adds.
pub open spec fn extra_fields(extra: Seq<(Seq<char>, Seq<char>)>) -> Seq<(Seq<char>, Seq<u8>)> {
    extra.map_values(|h: (Seq<char>, Seq<char>)| field(h.0, h.1))
}

proof fn lemma_request_push(headers: Seq<(Seq<char>, Seq<u8>)>, name: Seq<char>, value: Seq<char>)
    requires
        handshake::request_fields(headers) is Ok,
    ensures
        handshake::request_fields(headers.push(field(name, value)))
            == handshake::with_request_field(
            handshake::request_fields(headers)->Ok_0,
            name,
            encode_utf8(value),
        ),
        valid_utf8(encode_utf8(value)),
        decode_utf8(encode_utf8(value)) == value,
{
    lemma_field(value);
    assert(headers.push(field(name, value)).drop_last() =~= headers);
}

/// What the fields of a written request say, without those that its user adds.
proof fn lemma_written_request(
    host: Seq<char>,
    key: Seq<char>,
    protocol: Option<Seq<char>>,
    extensions: Option<Seq<char>>,
)
    requires
        protocol matches Some(p) ==> grammar::protocol_list(p),
        extensions matches Some(e) ==> grammar::extension_list(e),
    ensures
        handshake::request_fields(written_request_fields(host, key, protocol, extensions)) == Ok::<
            RequestFieldsView,
            Error,
        >(
            RequestFieldsView {
                key: Some(key),
                version: Some("13"@),
                protocol,
                extensions,
                host: Some(host),
                origin: None,
                upgrade: true,
                connection_upgrade: true,
            },
        ),
{
    lemma_request_names();
    lemma_upgrade_words();
    let h0 = Seq::<(Seq<char>, Seq<u8>)>::empty();
    lemma_request_push(h0, "Host"@, host);
    let h1 = h0.push(field("Host"@, host));
    lemma_request_push(h1, "Upgrade"@, "websocket"@);
    let h2 = h1.push(field("Upgrade"@, "websocket"@));
    lemma_request_push(h2, "Connection"@, "Upgrade"@);
    let h3 = h2.push(field("Connection"@, "Upgrade"@));
    lemma_request_push(h3, "Sec-WebSocket-Key"@, key);
    let h4 = h3.push(field("Sec-WebSocket-Key"@, key));
    lemma_request_push(h4, "Sec-WebSocket-Version"@, "13"@);
    let h5 = h4.push(field("Sec-WebSocket-Version"@, "13"@));
    let h6 = match protocol {
        Some(p) => {
            lemma_request_push(h5, "Sec-WebSocket-Protocol"@, p);
            h5.push(field("Sec-WebSocket-Protocol"@, p))
        },
        None => h5,
    };
    let h7 = match extensions {
        Some(e) => {
            lemma_request_push(h6, "Sec-WebSocket-Extensions"@, e);
            h6.push(field("Sec-WebSocket-Extensions"@, e))
        },
        None => h6,
    };
    assert(written_request_fields(host, key, protocol, extensions) =~= h7);
}

/// Fields that a user adds change nothing but the origin.
proof fn lemma_extra_request_fields(
    headers: Seq<(Seq<char>, Seq<u8>)>,
    f: RequestFieldsView,
    extra: Seq<(Seq<char>, Seq<char>)>,
)
    requires
        handshake::request_fields(headers) == Ok::<RequestFieldsView, Error>(f),
        f.origin is None,
        forall|i: int|
            0 <= i < extra.len() ==> handshake::extra_header_error(#[trigger] extra[i]) is None,
    ensures
        handshake::request_fields(headers + extra_fields(extra)) == Ok::<RequestFieldsView, Error>(
            RequestFieldsView { origin: handshake::last_origin(extra), ..f },
        ),
    decreases extra.len(),
{
    if extra.len() == 0 {
        assert(headers + extra_fields(extra) =~= headers);
    } else {
        let before = extra.drop_last();
        lemma_extra_request_fields(headers, f, before);
        lemma_request_push(headers + extra_fields(before), extra.last().0, extra.last().1);
        assert(headers + extra_fields(extra) =~= (headers + extra_fields(before)).push(
            field(extra.last().0, extra.last().1),
        ));
        assert(handshake::extra_header_error(extra[extra.len() - 1]) is None);
    }
}

/// A server accepts what the checked builder writes: where the head of a
/// request has the fields that a client writes for a target in origin form,
/// with the headers that its user adds, the server reads back the same values.
pub proof fn law_server_accepts_client_request(
    head: RequestHeadView,
    uri: Option<UriView>,
    host: Seq<char>,
    path: Seq<char>,
    key: Seq<char>,
    protocol: Option<Seq<char>>,
    extensions: Option<Seq<char>>,
    extra: Seq<(Seq<char>, Seq<char>)>,
)
    requires
        handshake::request_error(host, path, key, protocol, extensions, extra) is None,
        handshake::origin_form(path, uri),
        head.len <= handshake::MAX_HEADER_SIZE,
        head.method == Some("GET"@),
        head.version == Some(1u8),
        head.path == Some(path),
        head.headers == written_request_fields(host, key, protocol, extensions) + extra_fields(
            extra,
        ),
    ensures
        handshake::request_of(head, uri) == Ok::<RequestView, Error>(
            RequestView {
                path,
                host: Some(host),
                key,
                version: "13"@,
                protocol,
                extensions,
                origin: handshake::last_origin(extra),
            },
        ),
{
    lemma_written_request(host, key, protocol, extensions);
    assert forall|i: int| 0 <= i < extra.len() implies handshake::extra_header_error(
        #[trigger] extra[i],
    ) is None by {
        lemma_extra_header(extra, i);
    }
    let f = handshake::request_fields(
        written_request_fields(host, key, protocol, extensions),
    )->Ok_0;
    lemma_extra_request_fields(
        written_request_fields(host, key, protocol, extensions),
        f,
        extra,
    );
}

// ---------------------------------------------------------------------------
// What one side writes, the other reads
// ---------------------------------------------------------------------------

proof fn lemma_header_lines(a: Seq<(Seq<char>, Seq<char>)>, b: Seq<(Seq<char>, Seq<char>)>)
    ensures
        handshake::header_lines(a + b) == handshake::header_lines(a) + handshake::header_lines(b),
    decreases b.len(),
{
    if b.len() == 0 {
        assert(a + b =~= a);
        assert(handshake::header_lines(a) + handshake::header_lines(b) =~= handshake::header_lines(
            a,
        ));
    } else {
        lemma_header_lines(a, b.drop_last());
        assert((a + b).drop_last() =~= a + b.drop_last());
        assert((a + b).last() == b.last());
        assert(handshake::header_lines(a + b) =~= handshake::header_lines(a)
            + handshake::header_lines(b));
    }
}

proof fn lemma_concat(a: Seq<char>, b: Seq<char>, c: Seq<char>)
    ensures
        a + (b + c) == (a + b) + c,
{
    assert(a + (b + c) =~= (a + b) + c);
}

/// One more header line behind a text.
proof fn lemma_header_lines_push(
    before: Seq<char>,
    a: Seq<(Seq<char>, Seq<char>)>,
    name: Seq<char>,
    value: Seq<char>,
)
    ensures
        before + handshake::header_lines(a.push((name, value))) == before
            + handshake::header_lines(a) + handshake::header_line(name, value),
{
    assert(a.push((name, value)).drop_last() =~= a);
    lemma_concat(before, handshake::header_lines(a), handshake::header_line(name, value));
}

/// More header lines behind a text.
proof fn lemma_header_lines_behind(
    before: Seq<char>,
    a: Seq<(Seq<char>, Seq<char>)>,
    b: Seq<(Seq<char>, Seq<char>)>,
)
    ensures
        before + handshake::header_lines(a + b) == before + handshake::header_lines(a)
            + handshake::header_lines(b),
{
    lemma_header_lines(a, b);
    lemma_concat(before, handshake::header_lines(a), handshake::header_lines(b));
}

/// The line of a header field that may be missing.
proof fn lemma_optional_line(name: Seq<char>, value: Option<Seq<char>>)
    ensures
        handshake::header_lines(handshake::optional_pair(name, value)) == handshake::optional_line(
            name,
            value,
        ),
{
    match value {
        Some(v) => {
            let none = Seq::<(Seq<char>, Seq<char>)>::empty();
            assert(none.push((name, v)).drop_last() =~= none);
            assert(handshake::optional_pair(name, value) =~= none.push((name, v)));
            assert(handshake::header_lines(none) + handshake::header_line(name, v)
                =~= handshake::header_line(name, v));
        },
        None => {},
    }
}

/// The text of a written request is its request line and its header lines.
proof fn lemma_request_text(w: WrittenRequest)
    ensures
        w.text() == handshake::request_lines(w.path, w.fields()),
{
    let line = "GET "@ + w.path + " HTTP/1.1\r\n"@;
    let f0 = Seq::<(Seq<char>, Seq<char>)>::empty();
    let f1 = f0.push(("Host"@, w.host));
    let f2 = f1.push(("Upgrade"@, "websocket"@));
    let f3 = f2.push(("Connection"@, "Upgrade"@));
    let f4 = f3.push(("Sec-WebSocket-Key"@, w.key));
    let f5 = f4.push(("Sec-WebSocket-Version"@, "13"@));
    let protocol = handshake::optional_pair("Sec-WebSocket-Protocol"@, w.protocol);
    let extensions = handshake::optional_pair("Sec-WebSocket-Extensions"@, w.extensions);
    assert(line + handshake::header_lines(f0) =~= line);
    lemma_header_lines_push(line, f0, "Host"@, w.host);
    lemma_header_lines_push(line, f1, "Upgrade"@, "websocket"@);
    lemma_header_lines_push(line, f2, "Connection"@, "Upgrade"@);
    lemma_header_lines_push(line, f3, "Sec-WebSocket-Key"@, w.key);
    lemma_header_lines_push(line, f4, "Sec-WebSocket-Version"@, "13"@);
    lemma_optional_line("Sec-WebSocket-Protocol"@, w.protocol);
    lemma_optional_line("Sec-WebSocket-Extensions"@, w.extensions);
    lemma_header_lines_behind(line, f5, protocol);
    lemma_header_lines_behind(line, f5 + protocol, extensions);
    lemma_header_lines_behind(line, f5 + protocol + extensions, w.extra);
    assert(w.fields() == f5 + protocol + extensions + w.extra) by {
        assert(f5 =~= seq![
            ("Host"@, w.host),
            ("Upgrade"@, "websocket"@),
            ("Connection"@, "Upgrade"@),
            ("Sec-WebSocket-Key"@, w.key),
            ("Sec-WebSocket-Version"@, "13"@),
        ]);
    }
}

/// The text of a written response is its status line and its header lines.
proof fn lemma_response_text(w: WrittenResponse)
    ensures
        w.text() == handshake::response_lines(w.fields()),
{
    let line = "HTTP/1.1 101 Switching Protocols\r\n"@;
    let f0 = Seq::<(Seq<char>, Seq<char>)>::empty();
    let f1 = f0.push(("Upgrade"@, "websocket"@));
    let f2 = f1.push(("Connection"@, "Upgrade"@));
    let f3 = f2.push(("Sec-WebSocket-Accept"@, w.accept));
    let protocol = handshake::optional_pair("Sec-WebSocket-Protocol"@, w.protocol);
    let extensions = handshake::optional_pair("Sec-WebSocket-Extensions"@, w.extensions);
    assert(line + handshake::header_lines(f0) =~= line);
    lemma_header_lines_push(line, f0, "Upgrade"@, "websocket"@);
    lemma_header_lines_push(line, f1, "Connection"@, "Upgrade"@);
    lemma_header_lines_push(line, f2, "Sec-WebSocket-Accept"@, w.accept);
    lemma_optional_line("Sec-WebSocket-Protocol"@, w.protocol);
    lemma_optional_line("Sec-WebSocket-Extensions"@, w.extensions);
    lemma_header_lines_behind(line, f3, protocol);
    lemma_header_lines_behind(line, f3 + protocol, extensions);
    assert(w.fields() == f3 + protocol + extensions) by {
        assert(f3 =~= seq![
            ("Upgrade"@, "websocket"@),
            ("Connection"@, "Upgrade"@),
            ("Sec-WebSocket-Accept"@, w.accept),
        ]);
    }
}

/// The names that the two sides write are tokens.
proof fn lemma_names_are_tokens()
    ensures
        grammar::token("Host"@),
        grammar::token("Upgrade"@),
        grammar::token("Connection"@),
        grammar::token("Sec-WebSocket-Key"@),
        grammar::token("Sec-WebSocket-Version"@),
        grammar::token("Sec-WebSocket-Protocol"@),
        grammar::token("Sec-WebSocket-Extensions"@),
        grammar::token("Sec-WebSocket-Accept"@),
{
    reveal_strlit("Host");
    reveal_strlit("Upgrade");
    reveal_strlit("Connection");
    reveal_strlit("Sec-WebSocket-Key");
    reveal_strlit("Sec-WebSocket-Version");
    reveal_strlit("Sec-WebSocket-Protocol");
    reveal_strlit("Sec-WebSocket-Extensions");
    reveal_strlit("Sec-WebSocket-Accept");
}

/// The values that both sides write as they are.
proof fn lemma_fixed_values()
    ensures
        grammar::header_value("websocket"@),
        grammar::header_value("Upgrade"@),
        grammar::header_value("13"@),
        handshake::unpadded("websocket"@),
        handshake::unpadded("Upgrade"@),
        handshake::unpadded("13"@),
{
    reveal_strlit("websocket");
    reveal_strlit("Upgrade");
    reveal_strlit("13");
    lemma_unpadded("websocket"@);
    lemma_unpadded("Upgrade"@);
    lemma_unpadded("13"@);
}

/// A key is a base64 text.
proof fn lemma_key_is_base64(key: Seq<char>)
    requires
        handshake::encodes_sixteen_bytes(key),
    ensures
        handshake::base64_chars(key),
{
    assert forall|i: int| 0 <= i < key.len() implies handshake::base64_value(#[trigger] key[i])
        is Some || key[i] == '=' by {
        if i < 22 {
            assert(handshake::base64_value(key[i]) is Some);
        }
    }
}

/// A written request begins what the parser is given.
pub(crate) proof fn lemma_request_begins(w: WrittenRequest, buf: Seq<u8>)
    requires
        w.begins(buf),
    ensures
        handshake::begins_with_request(handshake::head_part(buf), w.path, w.fields()),
        w.fields().len() <= handshake::MAX_HEADERS,
{
    lemma_request_text(w);
    lemma_names_are_tokens();
    lemma_fixed_values();
    lemma_key_is_base64(w.key);
    lemma_base64_is_value(w.key);
    if let Some(p) = w.protocol {
        lemma_protocol_list_is_value(p);
    }
    if let Some(e) = w.extensions {
        lemma_extension_list_is_value(e);
    }
    let fields = w.fields();
    let count = fields.len() - w.extra.len();
    assert forall|i: int| 0 <= i < fields.len() implies handshake::writable_field(
        #[trigger] fields[i],
    ) by {
        if i >= count {
            assert(fields[i] == w.extra[i - count]);
            lemma_extra_header(w.extra, i - count);
        }
    }
    let text = encode_utf8(w.text());
    assert(text.is_prefix_of(handshake::head_part(buf))) by {
        assert(text =~= handshake::head_part(buf).take(text.len() as int));
    }
}

/// A written response begins what the parser is given.
pub(crate) proof fn lemma_response_begins(w: WrittenResponse, buf: Seq<u8>)
    requires
        w.begins(buf),
    ensures
        handshake::begins_with_response(handshake::head_part(buf), w.fields()),
        w.fields().len() <= handshake::MAX_HEADERS,
{
    lemma_response_text(w);
    lemma_names_are_tokens();
    lemma_fixed_values();
    lemma_base64_is_value(w.accept);
    if let Some(e) = w.extensions {
        lemma_extension_list_is_value(e);
    }
    let fields = w.fields();
    assert forall|i: int| 0 <= i < fields.len() implies handshake::writable_field(
        #[trigger] fields[i],
    ) by {
        if let Some(p) = w.protocol {
            assert(grammar::header_value(p));
        }
    }
    let text = encode_utf8(w.text());
    assert(text.is_prefix_of(handshake::head_part(buf))) by {
        assert(text =~= handshake::head_part(buf).take(text.len() as int));
    }
}

/// The header fields that a user adds, without blanks around the values.
spec fn trimmed_extra(extra: Seq<(Seq<char>, Seq<char>)>) -> Seq<(Seq<char>, Seq<char>)> {
    extra.map_values(|h: (Seq<char>, Seq<char>)| (h.0, strings::trimmed_ows(h.1)))
}

proof fn lemma_trimmed_extra(extra: Seq<(Seq<char>, Seq<char>)>)
    requires
        handshake::extra_headers_error(extra) is None,
    ensures
        handshake::extra_headers_error(trimmed_extra(extra)) is None,
    decreases extra.len(),
{
    if extra.len() > 0 {
        lemma_trimmed_extra(extra.drop_first());
        lemma_trimmed_value(extra[0].1);
        assert(trimmed_extra(extra).drop_first() =~= trimmed_extra(extra.drop_first()));
    }
}

proof fn lemma_trimmed_origin(extra: Seq<(Seq<char>, Seq<char>)>)
    ensures
        handshake::last_origin(trimmed_extra(extra)) == (match handshake::last_origin(extra) {
            Some(origin) => Some(strings::trimmed_ows(origin)),
            None => None,
        }),
    decreases extra.len(),
{
    if extra.len() > 0 {
        lemma_trimmed_origin(extra.drop_last());
        assert(trimmed_extra(extra).drop_last() =~= trimmed_extra(extra.drop_last()));
    }
}

/// A server reads back what a client has written.
pub(crate) proof fn lemma_written_request_is_read(w: WrittenRequest, uri: Option<UriView>)
    requires
        w.deliverable(),
        uri == Some(
            UriView { scheme: None, authority: None, path_and_query: Some(w.path) },
        ),
    ensures
        handshake::request_of(handshake::head_of_request(w.path, w.fields()), uri) == Ok::<
            RequestView,
            Error,
        >(w.as_read()),
        handshake::head_of_request(w.path, w.fields()).len == encode_utf8(w.text()).len(),
{
    let head = handshake::head_of_request(w.path, w.fields());
    let extra = trimmed_extra(w.extra);
    lemma_request_text(w);
    lemma_fixed_values();
    lemma_key_is_base64(w.key);
    lemma_base64_is_value(w.key);
    lemma_trimmed_extra(w.extra);
    lemma_trimmed_origin(w.extra);
    let written = written_request_fields(w.host, w.key, w.protocol, w.extensions);
    assert(head.headers =~= written + extra_fields(extra)) by {
        let count = written.len() as int;
        assert forall|i: int| 0 <= i < head.headers.len() implies head.headers[i] == (written
            + extra_fields(extra))[i] by {
            if i >= count {
                assert(w.fields()[i] == w.extra[i - count]);
            }
        }
    }
    law_server_accepts_client_request(
        head,
        uri,
        w.host,
        w.path,
        w.key,
        w.protocol,
        w.extensions,
        extra,
    );
}

/// A client reads back what a server has written.
pub(crate) proof fn lemma_written_response_is_read(w: WrittenResponse)
    requires
        w.deliverable(),
    ensures
        handshake::response_of(handshake::head_of_response(w.fields())) == Ok::<
            ResponseView,
            Error,
        >(w.as_read()),
        handshake::head_of_response(w.fields()).len == encode_utf8(w.text()).len(),
{
    let head = handshake::head_of_response(w.fields());
    lemma_response_text(w);
    lemma_fixed_values();
    lemma_base64_is_value(w.accept);
    if let Some(p) = w.protocol {
        lemma_unpadded(p);
    }
    assert(head.headers =~= written_response_fields(w.accept, w.protocol, w.extensions));
    lemma_written_response(w.accept, w.protocol, w.extensions);
}

proof fn lemma_first_supported(offered: Seq<char>, supported: Seq<Seq<char>>)
    ensures
        handshake::first_supported(offered, supported) matches Some(p) ==> grammar::lists(
            offered,
            p,
        ),
    decreases supported.len(),
{
    if supported.len() > 0 {
        lemma_first_supported(offered, supported.drop_first());
    }
}

proof fn lemma_first_nonempty(all: Seq<Seq<char>>)
    ensures
        handshake::first_nonempty(all) matches Some(p) ==> all.contains(p),
    decreases all.len(),
{
    if all.len() > 0 {
        lemma_first_nonempty(all.drop_first());
        if all[0].len() == 0 {
            if let Some(p) = handshake::first_nonempty(all.drop_first()) {
                let k = choose|k: int|
                    0 <= k < all.drop_first().len() && all.drop_first()[k] == p;
                assert(all[k + 1] == p);
            }
        } else {
            assert(all.contains(all[0]));
        }
    }
}

/// The subprotocol that a server selects of a checked offer is a token, and the
/// client has offered it.
proof fn lemma_selected_protocol(w: WrittenRequest, supported: Option<Seq<Seq<char>>>)
    requires
        w.deliverable(),
    ensures
        handshake::selection_allowed(
            w.protocol,
            handshake::selected_protocol(w.protocol, supported),
        ),
        handshake::selected_protocol(w.protocol, supported) matches Some(p) ==> grammar::token(p),
{
    if let Some(offered) = w.protocol {
        match supported {
            Some(all) => lemma_first_supported(offered, all),
            None => lemma_first_nonempty(grammar::elements(offered)),
        }
        if let Some(p) = handshake::selected_protocol(w.protocol, supported) {
            let e = grammar::elements(offered);
            assert(e.contains(p));
            let i = choose|i: int| 0 <= i < e.len() && e[i] == p;
            assert(e[i].len() > 0);
        }
    }
}

/// A handshake between the two sides succeeds: a server that is sent what the
/// checked builder writes reads it back and answers, and the client that is sent
/// the answer accepts it, with the subprotocol that the server has selected.
///
/// The promises of [`handshake::server_step`] and [`handshake::client_step`]
/// for the bytes that they are given stand among the premises, and so does what
/// a server owes its client: extensions that follow their grammar, in an answer
/// that is no larger than a client takes.
pub proof fn law_handshake_succeeds(
    w: WrittenRequest,
    request: Seq<u8>,
    supported: Option<Seq<Seq<char>>>,
    extensions: Option<Seq<char>>,
    answer: ServerAnswer,
    response: Seq<u8>,
)
    requires
        w.begins(request),
        handshake::reads_back_requests(request),
        handshake::answers(
            answer,
            w.as_read(),
            encode_utf8(w.text()).len(),
            request,
            supported,
            extensions,
        ),
        handshake::base64_chars(handshake::accept_key(w.key)),
        extensions matches Some(e) ==> grammar::extension_list(e) && handshake::unpadded(e),
        answer.response@.len() <= handshake::MAX_HEADER_SIZE,
        answer.response@.is_prefix_of(response),
        handshake::reads_back_responses(response),
    ensures
        handshake::read_request(request) == Ok::<Option<(RequestView, nat)>, Error>(
            Some((w.as_read(), encode_utf8(w.text()).len())),
        ),
        handshake::read_response(response) matches Ok(Some((read, len))) && handshake::accepted(
            read,
            len,
            response,
            w.key,
            w.path,
            w.protocol,
        ) == Ok::<ResultView, Error>(
            ResultView {
                path: w.path,
                protocol: handshake::selected_protocol(w.protocol, supported),
                extensions,
                leftover: handshake::left_over(response, answer.response@.len()),
            },
        ),
{
    lemma_selected_protocol(w, supported);
    let written = WrittenResponse {
        accept: handshake::accept_key(w.key),
        protocol: handshake::selected_protocol(w.protocol, supported),
        extensions,
    };
    assert(written.begins(response));
}

} // verus!
