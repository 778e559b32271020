//! What the opening handshake promises of the requests and responses it takes.
use crate::buffer::BufferView;
use crate::error::Error;
use crate::grammar;
use crate::handshake;
use crate::handshake::{
    ParsedRequestView, ParsedResponseView, RequestHeadView, RequestView, ResponseHeadView,
    ResponseView, ServerAnswer, UriView,
};
use crate::strings;
use crate::text_laws;
use vstd::prelude::*;
use vstd::utf8::*;

verus! {

/// A header field: its name and the bytes of its value.
pub type Field = (Seq<char>, Seq<u8>);

/// Whether a field has this name, which is in lower case, however it is written.
pub open spec fn named(field: Field, name: Seq<char>) -> bool {
    strings::lowered(field.0) == name
}

/// Whether some field has this name.
pub open spec fn has_field(headers: Seq<Field>, name: Seq<char>) -> bool {
    exists|i: int| 0 <= i < headers.len() && named(#[trigger] headers[i], name)
}

/// Whether no two fields have this name.
pub open spec fn at_most_one(headers: Seq<Field>, name: Seq<char>) -> bool {
    forall|i: int, j: int|
        0 <= i < j < headers.len() ==> !(named(#[trigger] headers[i], name) && named(
            #[trigger] headers[j],
            name,
        ))
}

/// Whether a field is the last of its name.
pub open spec fn last_named(headers: Seq<Field>, name: Seq<char>, i: int) -> bool {
    &&& 0 <= i < headers.len()
    &&& named(headers[i], name)
    &&& forall|j: int| i < j < headers.len() ==> !named(#[trigger] headers[j], name)
}

/// Whether a text is the value of the last field of a name: none where there is
/// no such field.
pub open spec fn last_says(
    headers: Seq<Field>,
    name: Seq<char>,
    value: Option<Seq<char>>,
) -> bool {
    match value {
        Some(t) => exists|i: int| #[trigger]
            last_named(headers, name, i) && decode_utf8(headers[i].1) == t,
        None => !has_field(headers, name),
    }
}

/// Whether the list in some field of this name holds a word.
pub open spec fn some_lists(headers: Seq<Field>, name: Seq<char>, word: Seq<char>) -> bool {
    exists|i: int|
        {
            &&& 0 <= i < headers.len()
            &&& named(#[trigger] headers[i], name)
            &&& text_laws::word_in(decode_utf8(headers[i].1), word)
        }
}

/// Whether a field may stand in a request: its value is UTF-8, and a list of
/// the extension's own fields is one. There is no body.
pub open spec fn field_allowed(field: Field) -> bool {
    let value = decode_utf8(field.1);
    &&& valid_utf8(field.1)
    &&& named(field, "sec-websocket-protocol"@) ==> grammar::protocol_list(value)
    &&& named(field, "sec-websocket-extensions"@) ==> grammar::extension_list(value)
    &&& named(field, "content-length"@) ==> grammar::zero_length(value)
    &&& !named(field, "transfer-encoding"@)
}

/// Whether the fields of a request can be read together.
pub open spec fn readable(headers: Seq<Field>) -> bool {
    &&& forall|i: int| 0 <= i < headers.len() ==> field_allowed(#[trigger] headers[i])
    &&& at_most_one(headers, "sec-websocket-key"@)
    &&& at_most_one(headers, "sec-websocket-version"@)
}

/// The names of the fields of a handshake, in lower case.
pub proof fn lemma_names()
    ensures
        strings::lowered("sec-websocket-key"@) == "sec-websocket-key"@,
        strings::lowered("sec-websocket-version"@) == "sec-websocket-version"@,
        strings::lowered("sec-websocket-protocol"@) == "sec-websocket-protocol"@,
        strings::lowered("sec-websocket-extensions"@) == "sec-websocket-extensions"@,
        strings::lowered("sec-websocket-accept"@) == "sec-websocket-accept"@,
        strings::lowered("host"@) == "host"@,
        strings::lowered("origin"@) == "origin"@,
        strings::lowered("upgrade"@) == "upgrade"@,
        strings::lowered("connection"@) == "connection"@,
        strings::lowered("content-length"@) == "content-length"@,
        strings::lowered("transfer-encoding"@) == "transfer-encoding"@,
        strings::lowered("websocket"@) == "websocket"@,
        "sec-websocket-key"@.len() == 17 && "sec-websocket-key"@[0] == 's',
        "transfer-encoding"@.len() == 17 && "transfer-encoding"@[0] == 't',
        "sec-websocket-version"@.len() == 21,
        "sec-websocket-protocol"@.len() == 22,
        "sec-websocket-extensions"@.len() == 24,
        "sec-websocket-accept"@.len() == 20,
        "host"@.len() == 4,
        "origin"@.len() == 6,
        "upgrade"@.len() == 7,
        "connection"@.len() == 10,
        "content-length"@.len() == 14,
        text_laws::plain_word("upgrade"@),
        text_laws::plain_word("websocket"@),
{
    reveal_strlit("sec-websocket-key");
    reveal_strlit("sec-websocket-version");
    reveal_strlit("sec-websocket-protocol");
    reveal_strlit("sec-websocket-extensions");
    reveal_strlit("sec-websocket-accept");
    reveal_strlit("host");
    reveal_strlit("origin");
    reveal_strlit("upgrade");
    reveal_strlit("connection");
    reveal_strlit("content-length");
    reveal_strlit("transfer-encoding");
    reveal_strlit("websocket");
    assert(strings::lowered("sec-websocket-key"@) =~= "sec-websocket-key"@);
    assert(strings::lowered("sec-websocket-version"@) =~= "sec-websocket-version"@);
    assert(strings::lowered("sec-websocket-protocol"@) =~= "sec-websocket-protocol"@);
    assert(strings::lowered("sec-websocket-extensions"@) =~= "sec-websocket-extensions"@);
    assert(strings::lowered("sec-websocket-accept"@) =~= "sec-websocket-accept"@);
    assert(strings::lowered("host"@) =~= "host"@);
    assert(strings::lowered("origin"@) =~= "origin"@);
    assert(strings::lowered("upgrade"@) =~= "upgrade"@);
    assert(strings::lowered("connection"@) =~= "connection"@);
    assert(strings::lowered("content-length"@) =~= "content-length"@);
    assert(strings::lowered("transfer-encoding"@) =~= "transfer-encoding"@);
    assert(strings::lowered("websocket"@) =~= "websocket"@);
}

/// What one more field changes.
proof fn lemma_one_more_field(init: Seq<Field>, last: Field, name: Seq<char>, word: Seq<char>)
    ensures
        ({
            let all = init.push(last);
            &&& has_field(all, name) <==> has_field(init, name) || named(last, name)
            &&& at_most_one(all, name) <==> at_most_one(init, name) && !(named(last, name)
                && has_field(init, name))
            &&& named(last, name) ==> last_says(all, name, Some(decode_utf8(last.1)))
            &&& !named(last, name) ==> forall|value: Option<Seq<char>>|
                #![trigger last_says(all, name, value)]
                last_says(init, name, value) ==> last_says(all, name, value)
            &&& some_lists(all, name, word) <==> some_lists(init, name, word) || (named(last, name)
                && text_laws::word_in(decode_utf8(last.1), word))
        }),
{
    let all = init.push(last);
    let n = init.len() as int;
    assert(all[n] == last);
    assert forall|i: int| 0 <= i < n implies #[trigger] init[i] == all[i] by {}
    if has_field(all, name) {
        let i = choose|i: int| 0 <= i < all.len() && named(#[trigger] all[i], name);
        if i < n {
            assert(named(init[i], name));
        }
    }
    if has_field(init, name) {
        let i = choose|i: int| 0 <= i < init.len() && named(#[trigger] init[i], name);
        assert(named(all[i], name));
    }
    if at_most_one(all, name) {
        assert forall|i: int, j: int| 0 <= i < j < init.len() implies !(named(
            #[trigger] init[i],
            name,
        ) && named(#[trigger] init[j], name)) by {
            assert(init[i] == all[i] && init[j] == all[j]);
        }
        if named(last, name) && has_field(init, name) {
            let i = choose|i: int| 0 <= i < init.len() && named(#[trigger] init[i], name);
            assert(!(named(all[i], name) && named(all[n], name)));
        }
    }
    if at_most_one(init, name) && !(named(last, name) && has_field(init, name)) {
        assert forall|i: int, j: int| 0 <= i < j < all.len() implies !(named(
            #[trigger] all[i],
            name,
        ) && named(#[trigger] all[j], name)) by {
            assert(init[i] == all[i]);
            if j < n {
                assert(init[j] == all[j]);
            }
        }
    }
    if named(last, name) {
        assert(last_named(all, name, n));
    } else {
        assert forall|value: Option<Seq<char>>| last_says(
            init,
            name,
            value,
        ) implies #[trigger] last_says(all, name, value) by {
            if let Some(t) = value {
                let i = choose|i: int| #[trigger]
                    last_named(init, name, i) && decode_utf8(init[i].1) == t;
                assert forall|j: int| i < j < all.len() implies !named(
                    #[trigger] all[j],
                    name,
                ) by {
                    if j < n {
                        assert(init[j] == all[j]);
                    }
                }
                assert(last_named(all, name, i));
            }
        }
    }
    if some_lists(all, name, word) {
        let i = choose|i: int|
            0 <= i < all.len() && named(#[trigger] all[i], name) && text_laws::word_in(
                decode_utf8(all[i].1),
                word,
            );
        if i < n {
            assert(named(init[i], name));
        }
    }
    if some_lists(init, name, word) {
        let i = choose|i: int|
            0 <= i < init.len() && named(#[trigger] init[i], name) && text_laws::word_in(
                decode_utf8(init[i].1),
                word,
            );
        assert(named(all[i], name));
    }
}

proof fn lemma_allowed_push(init: Seq<Field>, last: Field)
    ensures
        (forall|i: int| 0 <= i < init.push(last).len() ==> field_allowed(#[trigger] init.push(last)[i]))
            <==> (forall|i: int| 0 <= i < init.len() ==> field_allowed(#[trigger] init[i]))
            && field_allowed(last),
{
    let all = init.push(last);
    assert(all[init.len() as int] == last);
    if forall|i: int| 0 <= i < all.len() ==> field_allowed(#[trigger] all[i]) {
        assert forall|i: int| 0 <= i < init.len() implies field_allowed(#[trigger] init[i]) by {
            assert(init[i] == all[i]);
        }
    }
    if (forall|i: int| 0 <= i < init.len() ==> field_allowed(#[trigger] init[i])) && field_allowed(
        last,
    ) {
        assert forall|i: int| 0 <= i < all.len() implies field_allowed(#[trigger] all[i]) by {
            if i < init.len() {
                assert(init[i] == all[i]);
            }
        }
    }
}

/// The fields of a request can be read exactly where each may stand there and
/// neither key nor version comes twice. Each value is then that of the last
/// field of its name, however the name is written, and the upgrade is asked for
/// where any element of any such list, in whatever case and with whatever
/// blanks around it, is the word for it.
#[verifier::rlimit(40)]
pub proof fn law_request_fields_are_read(headers: Seq<Field>)
    ensures
        handshake::request_fields(headers) is Ok <==> readable(headers),
        handshake::request_fields(headers) matches Ok(f) ==> {
            &&& last_says(headers, "sec-websocket-key"@, f.key)
            &&& last_says(headers, "sec-websocket-version"@, f.version)
            &&& last_says(headers, "sec-websocket-protocol"@, f.protocol)
            &&& last_says(headers, "sec-websocket-extensions"@, f.extensions)
            &&& last_says(headers, "host"@, f.host)
            &&& last_says(headers, "origin"@, f.origin)
            &&& f.upgrade <==> some_lists(headers, "upgrade"@, "websocket"@)
            &&& f.connection_upgrade <==> some_lists(headers, "connection"@, "upgrade"@)
        },
    decreases headers.len(),
{
    if headers.len() > 0 {
        let init = headers.drop_last();
        let last = headers.last();
        assert(init.push(last) =~= headers);
        law_request_fields_are_read(init);
        lemma_allowed_push(init, last);
        lemma_names();
        lemma_one_more_field(init, last, "sec-websocket-key"@, "upgrade"@);
        lemma_one_more_field(init, last, "sec-websocket-version"@, "upgrade"@);
        lemma_one_more_field(init, last, "sec-websocket-protocol"@, "upgrade"@);
        lemma_one_more_field(init, last, "sec-websocket-extensions"@, "upgrade"@);
        lemma_one_more_field(init, last, "host"@, "upgrade"@);
        lemma_one_more_field(init, last, "origin"@, "upgrade"@);
        lemma_one_more_field(init, last, "upgrade"@, "websocket"@);
        lemma_one_more_field(init, last, "connection"@, "upgrade"@);
        let value = decode_utf8(last.1);
        text_laws::law_words_of_lists(value, "websocket"@);
        text_laws::law_words_of_lists(value, "upgrade"@);
        if let Ok(f) = handshake::request_fields(init) {
            lemma_has_says(init, "sec-websocket-key"@, f.key);
            lemma_has_says(init, "sec-websocket-version"@, f.version);
        }
    }
}

proof fn lemma_has_says(headers: Seq<Field>, name: Seq<char>, value: Option<Seq<char>>)
    requires
        last_says(headers, name, value),
    ensures
        has_field(headers, name) <==> value is Some,
{
    if let Some(t) = value {
        let i = choose|i: int| #[trigger]
            last_named(headers, name, i) && decode_utf8(headers[i].1) == t;
        assert(named(headers[i], name));
    }
}

/// A request is accepted exactly where its head is a GET of HTTP/1.1 within the
/// limit, its fields can be read, some Upgrade field lists `websocket` and some
/// Connection field lists `upgrade`, in whatever case and wherever in the list,
/// it has a key of sixteen bytes, version 13 and a host, and its target can be
/// resolved. What is accepted says what these fields say.
pub proof fn law_requests_are_accepted(head: RequestHeadView, uri: Option<UriView>)
    ensures
        ({
            let h = head.headers;
            let key = |k: Seq<char>|
                last_says(h, "sec-websocket-key"@, Some(k)) && handshake::encodes_sixteen_bytes(k);
            let host = |t: Seq<char>| last_says(h, "host"@, Some(t)) && t.len() > 0;
            let otherwise = {
                &&& head.len <= 8192
                &&& head.method == Some("GET"@)
                &&& head.version == Some(1u8)
                &&& readable(h)
                &&& exists|k: Seq<char>| #[trigger] key(k)
                &&& last_says(h, "sec-websocket-version"@, Some("13"@))
                &&& head.path is Some
                &&& exists|t: Seq<char>| #[trigger]
                    host(t) && handshake::target_of(head.path->0, t, uri) is Some
            };
            handshake::request_of(head, uri) is Ok <==> otherwise && some_lists(
                h,
                "upgrade"@,
                "websocket"@,
            ) && some_lists(h, "connection"@, "upgrade"@)
        }),
        handshake::request_of(head, uri) matches Ok(r) ==> {
            let h = head.headers;
            &&& last_says(h, "sec-websocket-key"@, Some(r.key))
            &&& r.version == "13"@
            &&& last_says(h, "sec-websocket-protocol"@, r.protocol)
            &&& last_says(h, "sec-websocket-extensions"@, r.extensions)
            &&& last_says(h, "origin"@, r.origin)
            &&& exists|t: Seq<char>|
                {
                    &&& last_says(h, "host"@, Some(t))
                    &&& r.host is Some
                    &&& #[trigger] handshake::target_of(head.path->0, t, uri) == Some(
                        (r.path, r.host->0),
                    )
                }
        },
{
    let h = head.headers;
    law_request_fields_are_read(h);
    let key = |k: Seq<char>|
        last_says(h, "sec-websocket-key"@, Some(k)) && handshake::encodes_sixteen_bytes(k);
    let host = |t: Seq<char>| last_says(h, "host"@, Some(t)) && t.len() > 0;
    if let Ok(f) = handshake::request_fields(h) {
        lemma_says_once(h, "sec-websocket-key"@, f.key);
        lemma_says_once(h, "sec-websocket-version"@, f.version);
        lemma_says_once(h, "host"@, f.host);
        if handshake::request_of(head, uri) is Ok {
            assert(key(f.key->0));
            assert(host(f.host->0));
            assert(last_says(h, "sec-websocket-version"@, Some("13"@)));
        }
        if exists|k: Seq<char>| #[trigger] key(k) {
            let k = choose|k: Seq<char>| #[trigger] key(k);
            assert(f.key == Some(k));
        }
        if exists|t: Seq<char>| #[trigger]
            host(t) && handshake::target_of(head.path->0, t, uri) is Some {
            let t = choose|t: Seq<char>| #[trigger]
                host(t) && handshake::target_of(head.path->0, t, uri) is Some;
            assert(f.host == Some(t));
        }
    }
}

/// There is only one last field of a name.
proof fn lemma_says_once(headers: Seq<Field>, name: Seq<char>, value: Option<Seq<char>>)
    requires
        last_says(headers, name, value),
    ensures
        forall|other: Option<Seq<char>>|
            #![trigger last_says(headers, name, other)]
            last_says(headers, name, other) ==> other == value,
{
    assert forall|other: Option<Seq<char>>| #[trigger]
        last_says(headers, name, other) implies other == value by {
        lemma_has_says(headers, name, value);
        lemma_has_says(headers, name, other);
        if value is Some && other is Some {
            let i = choose|i: int| #[trigger]
                last_named(headers, name, i) && decode_utf8(headers[i].1) == value->0;
            let j = choose|j: int| #[trigger]
                last_named(headers, name, j) && decode_utf8(headers[j].1) == other->0;
            if i < j {
                assert(!named(headers[j], name));
            }
            if j < i {
                assert(!named(headers[i], name));
            }
        }
    }
}

/// Whether a field may stand in a response.
pub open spec fn answer_field_allowed(field: Field) -> bool {
    let value = decode_utf8(field.1);
    &&& valid_utf8(field.1)
    &&& named(field, "sec-websocket-protocol"@) ==> grammar::token(value)
    &&& named(field, "sec-websocket-extensions"@) ==> grammar::extension_list(value)
    &&& named(field, "upgrade"@) ==> strings::lowered(value) == "websocket"@
}

/// Whether the fields of a response can be read together.
pub open spec fn answer_readable(headers: Seq<Field>) -> bool {
    &&& forall|i: int| 0 <= i < headers.len() ==> answer_field_allowed(#[trigger] headers[i])
    &&& at_most_one(headers, "sec-websocket-accept"@)
    &&& at_most_one(headers, "sec-websocket-protocol"@)
    &&& at_most_one(headers, "sec-websocket-extensions"@)
}

proof fn lemma_answer_allowed_push(init: Seq<Field>, last: Field)
    ensures
        (forall|i: int|
            0 <= i < init.push(last).len() ==> answer_field_allowed(#[trigger] init.push(last)[i]))
            <==> (forall|i: int| 0 <= i < init.len() ==> answer_field_allowed(#[trigger] init[i]))
            && answer_field_allowed(last),
{
    let all = init.push(last);
    assert(all[init.len() as int] == last);
    if forall|i: int| 0 <= i < all.len() ==> answer_field_allowed(#[trigger] all[i]) {
        assert forall|i: int| 0 <= i < init.len() implies answer_field_allowed(
            #[trigger] init[i],
        ) by {
            assert(init[i] == all[i]);
        }
    }
    if (forall|i: int| 0 <= i < init.len() ==> answer_field_allowed(#[trigger] init[i]))
        && answer_field_allowed(last) {
        assert forall|i: int| 0 <= i < all.len() implies answer_field_allowed(
            #[trigger] all[i],
        ) by {
            if i < init.len() {
                assert(init[i] == all[i]);
            }
        }
    }
}

/// The fields of a response can be read exactly where each may stand there and
/// none of the extension's own comes twice. Each value is then that of its
/// field, the protocol is upgraded where there is an Upgrade field, which can
/// only say so, and the connection where any element of any Connection field
/// does.
#[verifier::rlimit(40)]
pub proof fn law_response_fields_are_read(headers: Seq<Field>)
    ensures
        handshake::response_fields(headers) is Ok <==> answer_readable(headers),
        handshake::response_fields(headers) matches Ok(f) ==> {
            &&& last_says(headers, "sec-websocket-accept"@, f.accept)
            &&& last_says(headers, "sec-websocket-protocol"@, f.protocol)
            &&& last_says(headers, "sec-websocket-extensions"@, f.extensions)
            &&& f.upgrade <==> has_field(headers, "upgrade"@)
            &&& f.connection_upgrade <==> some_lists(headers, "connection"@, "upgrade"@)
        },
    decreases headers.len(),
{
    if headers.len() > 0 {
        let init = headers.drop_last();
        let last = headers.last();
        assert(init.push(last) =~= headers);
        law_response_fields_are_read(init);
        lemma_answer_allowed_push(init, last);
        lemma_names();
        lemma_one_more_field(init, last, "sec-websocket-accept"@, "upgrade"@);
        lemma_one_more_field(init, last, "sec-websocket-protocol"@, "upgrade"@);
        lemma_one_more_field(init, last, "sec-websocket-extensions"@, "upgrade"@);
        lemma_one_more_field(init, last, "upgrade"@, "websocket"@);
        lemma_one_more_field(init, last, "connection"@, "upgrade"@);
        text_laws::law_words_of_lists(decode_utf8(last.1), "upgrade"@);
        if let Ok(f) = handshake::response_fields(init) {
            lemma_has_says(init, "sec-websocket-accept"@, f.accept);
            lemma_has_says(init, "sec-websocket-protocol"@, f.protocol);
            lemma_has_says(init, "sec-websocket-extensions"@, f.extensions);
        }
    }
}

/// A response is taken exactly where its head is a 101 of HTTP/1.1 within the
/// limit, its fields can be read, there is an Upgrade field, and some
/// Connection field lists `upgrade`.
pub proof fn law_responses_are_taken(head: ResponseHeadView)
    ensures
        handshake::response_of(head) is Ok <==> {
            &&& head.len <= 8192
            &&& head.code == Some(101u16)
            &&& head.version == Some(1u8)
            &&& answer_readable(head.headers)
            &&& has_field(head.headers, "upgrade"@)
            &&& some_lists(head.headers, "connection"@, "upgrade"@)
        },
        handshake::response_of(head) matches Ok(r) ==> {
            &&& r.status == 101
            &&& last_says(head.headers, "sec-websocket-accept"@, r.accept)
            &&& last_says(head.headers, "sec-websocket-protocol"@, r.protocol)
            &&& last_says(head.headers, "sec-websocket-extensions"@, r.extensions)
        },
{
    law_response_fields_are_read(head.headers);
}

/// A client takes a response exactly where its accept value is the base64 text
/// of the SHA-1 digest of the client's key and the protocol's identifier, and
/// the subprotocol, where there is one, stands in the client's offer.
pub proof fn law_clients_check_the_answer(
    response: ResponseView,
    consumed: nat,
    buf: Seq<u8>,
    key: Seq<char>,
    path: Seq<char>,
    offered: Option<Seq<char>>,
)
    ensures
        ({
            let proof_of_key = handshake::base64_text(
                handshake::sha1_digest(
                    encode_utf8(key) + encode_utf8("258EAFA5-E914-47DA-95CA-C5AB0DC85B11"@),
                ),
            );
            let allowed = response.protocol is None || (offered is Some && text_laws::element_in(
                offered->0,
                response.protocol->0,
            ));
            &&& handshake::accepted(response, consumed, buf, key, path, offered) is Ok
                <==> response.accept == Some(proof_of_key) && allowed
            &&& handshake::accepted(response, consumed, buf, key, path, offered) matches Ok(r) ==> {
                &&& r.path == path
                &&& r.protocol == response.protocol
                &&& r.extensions == response.extensions
                &&& r.leftover == handshake::left_over(buf, consumed)
            }
        }),
{
    if response.protocol is Some && offered is Some {
        text_laws::law_elements_of_lists(offered->0, response.protocol->0);
    }
}

/// What is left of the input is what stands behind the handshake.
pub proof fn law_leftover_follows_the_handshake(head: Seq<u8>, rest: Seq<u8>)
    ensures
        rest.len() > 0 ==> handshake::left_over(head + rest, head.len()) == Some(rest),
        rest.len() == 0 ==> handshake::left_over(head + rest, head.len()) is None,
{
    assert((head + rest).skip(head.len() as int) =~= rest);
}

/// A server with preferences selects the one that comes first among its own and
/// stands in the offer, and none where there is no such; a server without
/// selects the first that is offered. Nothing is selected without an offer.
pub proof fn law_subprotocol_selection(offered: Seq<char>, supported: Seq<Seq<char>>)
    ensures
        match handshake::selected_protocol(Some(offered), Some(supported)) {
            Some(s) => exists|i: int|
                {
                    &&& 0 <= i < supported.len()
                    &&& #[trigger] supported[i] == s
                    &&& text_laws::element_in(offered, s)
                    &&& forall|j: int|
                        0 <= j < i ==> !text_laws::element_in(offered, #[trigger] supported[j])
                },
            None => forall|i: int|
                0 <= i < supported.len() ==> !text_laws::element_in(
                    offered,
                    #[trigger] supported[i],
                ),
        },
        handshake::selected_protocol(None, Some(supported)) is None,
        handshake::selected_protocol(None, None) is None,
{
    let at = lemma_first_supported(offered, supported);
    if at < supported.len() {
        assert(supported[at] == supported[at]);
    }
}

proof fn lemma_first_supported(offered: Seq<char>, supported: Seq<Seq<char>>) -> (at: int)
    ensures
        0 <= at <= supported.len(),
        forall|j: int| 0 <= j < at ==> !text_laws::element_in(offered, #[trigger] supported[j]),
        at < supported.len() ==> text_laws::element_in(offered, supported[at])
            && handshake::first_supported(offered, supported) == Some(supported[at]),
        at == supported.len() ==> handshake::first_supported(offered, supported) is None,
    decreases supported.len(),
{
    if supported.len() == 0 {
        0
    } else {
        text_laws::law_elements_of_lists(offered, supported[0]);
        if grammar::lists(offered, supported[0]) {
            0
        } else {
            let rest = supported.drop_first();
            let at = lemma_first_supported(offered, rest);
            assert forall|j: int| 0 <= j < at + 1 implies !text_laws::element_in(
                offered,
                #[trigger] supported[j],
            ) by {
                if j > 0 {
                    assert(rest[j - 1] == supported[j]);
                }
            }
            if at < rest.len() {
                assert(rest[at] == supported[at + 1]);
            }
            at + 1
        }
    }
}

/// Without preferences the first element of the offer that is not empty is
/// selected: what comes behind it does not count.
pub proof fn law_first_offer_is_the_default(
    left: Seq<char>,
    element: Seq<char>,
    right: Seq<char>,
    rest: Seq<char>,
)
    requires
        text_laws::blanks(left),
        text_laws::blanks(right),
        !element.contains(','),
        element.len() > 0 ==> !text_laws::blank(element[0]) && !text_laws::blank(element.last()),
    ensures
        handshake::selected_protocol(Some(left + element + right + seq![','] + rest), None) == if element.len() > 0 {
            Some(element)
        } else {
            handshake::selected_protocol(Some(rest), None)
        },
        handshake::selected_protocol(Some(left + element + right), None) == if element.len() > 0 {
            Some(element)
        } else {
            None
        },
{
    let first = left + element + right;
    assert(!first.contains(',')) by {
        if first.contains(',') {
            let i = choose|i: int| 0 <= i < first.len() && first[i] == ',';
            if i < left.len() {
                assert(left[i] == ',');
            } else if i < left.len() + element.len() {
                assert(element[i - left.len()] == ',');
                assert(element.contains(','));
            } else {
                assert(right[i - left.len() - element.len()] == ',');
            }
        }
    }
    text_laws::law_splitting_concatenates(first, ',', rest);
    text_laws::law_trimming_takes_blanks_off(left, element, right);
    let f = |e: Seq<char>| strings::trimmed_ows(e);
    let more = strings::split_on(rest, ',');
    assert(grammar::elements(first) =~= seq![element]);
    assert(grammar::elements(first + seq![','] + rest) =~= seq![element] + grammar::elements(rest));
    assert((seq![element] + grammar::elements(rest)).drop_first() =~= grammar::elements(rest));
    assert(seq![element].drop_first() =~= Seq::<Seq<char>>::empty());
    reveal_with_fuel(handshake::first_nonempty, 2);
}

/// The key of a request is good exactly where it is the base64 text of sixteen
/// bytes: twenty-two characters of the alphabet, the last of them one whose
/// four low bits are zero, and two signs of padding.
pub proof fn law_keys_have_sixteen_bytes(key: Seq<char>)
    ensures
        handshake::encodes_sixteen_bytes(key) <==> {
            &&& key.len() == 24
            &&& forall|i: int|
                0 <= i < 22 ==> ('A' <= #[trigger] key[i] <= 'Z') || ('a' <= key[i] <= 'z') || (
                '0' <= key[i] <= '9') || key[i] == '+' || key[i] == '/'
            &&& key[21] == 'A' || key[21] == 'Q' || key[21] == 'g' || key[21] == 'w'
            &&& key[22] == '='
            &&& key[23] == '='
        },
{
    if key.len() == 24 {
        assert(base64_low(key[21]));
    }
}

/// The characters of the alphabet whose four low bits are zero.
spec fn base64_low(c: char) -> bool {
    handshake::base64_value(c) is Some ==> (handshake::base64_value(c)->0 % 16 == 0 <==> c == 'A'
        || c == 'Q' || c == 'g' || c == 'w')
}

/// How a request is read off the input: a head that is not complete is waited
/// for, but not beyond 8192 bytes, and neither a longer head nor one that is no
/// HTTP is taken. A complete head of at most that length is judged by itself,
/// and tells how long it was.
pub proof fn law_requests_are_read(buf: Seq<u8>)
    ensures
        ({
            let seen = if buf.len() <= 8193 {
                buf
            } else {
                buf.take(8193)
            };
            let read = handshake::read_request(buf);
            match handshake::request_head(seen, 32) {
                ParsedRequestView::Partial => {
                    &&& buf.len() <= 8192 ==> read is Ok && read->Ok_0 is None
                    &&& buf.len() > 8192 ==> read is Err
                },
                ParsedRequestView::Malformed => read is Err,
                ParsedRequestView::Complete(head) => {
                    &&& head.len > 8192 ==> read is Err
                    &&& read is Ok ==> read->Ok_0 is Some
                    &&& read is Ok && head.path is Some ==> {
                        &&& (read->Ok_0->0).1 == head.len
                        &&& handshake::request_of(head, handshake::uri_parts(head.path->0)) == Ok::<
                            RequestView,
                            Error,
                        >((read->Ok_0->0).0)
                    }
                    &&& head.path is None ==> read is Err
                },
            }
        }),
{
}

/// How a response is read off the input: as a request is.
pub proof fn law_responses_are_read(buf: Seq<u8>)
    ensures
        ({
            let seen = if buf.len() <= 8193 {
                buf
            } else {
                buf.take(8193)
            };
            let read = handshake::read_response(buf);
            match handshake::response_head(seen, 32) {
                ParsedResponseView::Partial => {
                    &&& buf.len() <= 8192 ==> read is Ok && read->Ok_0 is None
                    &&& buf.len() > 8192 ==> read is Err
                },
                ParsedResponseView::Malformed => read is Err,
                ParsedResponseView::Complete(head) => {
                    &&& head.len > 8192 ==> read is Err
                    &&& read is Ok ==> {
                        &&& read->Ok_0 is Some
                        &&& (read->Ok_0->0).1 == head.len
                        &&& handshake::response_of(head) == Ok::<ResponseView, Error>(
                            (read->Ok_0->0).0,
                        )
                    }
                    &&& handshake::response_of(head) is Ok ==> read is Ok
                },
            }
        }),
{
}

/// A server answers a request with its own choice of subprotocol and of
/// extensions, and hands on what the request asked for: its path, the extensions
/// it offered, the subprotocol that was selected, and the input behind it.
pub proof fn law_servers_answer(
    answer: ServerAnswer,
    request: RequestView,
    consumed: nat,
    buf: Seq<u8>,
    supported: Option<Seq<Seq<char>>>,
    extensions: Option<Seq<char>>,
)
    requires
        handshake::answers(answer, request, consumed, buf, supported, extensions),
        consumed <= buf.len(),
    ensures
        answer.result@.path == request.path,
        answer.result@.extensions == request.extensions,
        answer.result@.protocol == handshake::selected_protocol(request.protocol, supported),
        answer.result@.leftover is Some ==> buf == buf.take(consumed as int)
            + answer.result@.leftover->0 && answer.result@.leftover->0.len() > 0,
        answer.result@.leftover is None ==> buf.len() == consumed,
        answer.response@ == encode_utf8(
            handshake::response_text(
                handshake::accept_key(request.key),
                answer.result@.protocol,
                extensions,
            ),
        ),
{
    assert(buf =~= buf.take(consumed as int) + buf.skip(consumed as int));
}

} // verus!
