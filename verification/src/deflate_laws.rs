//! What negotiating per-message compression promises.
use crate::deflate;
use crate::deflate::{DeflateConfig, DeflateOffer, DeflateWindowBits, NegotiationView, Param};
use crate::strings;
use crate::text;
use crate::text_laws;
use vstd::prelude::*;

verus! {

/// An answer keeps within the policy and within the offer: no window is larger
/// than either allows, a side that is to forget each message does so, and the
/// client is told a limit only where it has said that it takes one. (A client
/// that uses eight bits is decoded with nine.)
pub proof fn law_answer_keeps_within_offer_and_policy(offer: DeflateOffer, policy: DeflateConfig)
    requires
        deflate::offer_bits_valid(offer),
        deflate::answer(offer, policy) is Some,
    ensures
        ({
            let n = deflate::answer(offer, policy)->0;
            let server = deflate::bits_of(n.config.server_max_window_bits);
            let client = deflate::bits_of(n.config.client_max_window_bits);
            &&& server <= deflate::bits_of(policy.server_max_window_bits)
            &&& client <= deflate::bits_of(policy.client_max_window_bits)
            &&& offer.server_max_window_bits matches Some(limit) ==> server <= limit
            &&& offer.client_max_window_bits matches Some(Some(limit)) ==> client <= limit || (limit
                == 8 && client == 9)
            &&& offer.server_no_context_takeover || policy.server_no_context_takeover
                ==> n.config.server_no_context_takeover
            &&& offer.client_no_context_takeover || policy.client_no_context_takeover
                ==> n.config.client_no_context_takeover
            &&& n.client_limit is Some ==> offer.client_max_window_bits is Some
            &&& offer.server_max_window_bits is Some ==> n.server_limit is Some
        }),
{
}

/// An offer is refused exactly where it leaves the server fewer than nine
/// bits, or keeps the client from being given a limit that the policy needs.
pub proof fn law_refused_offers(offer: DeflateOffer, policy: DeflateConfig)
    requires
        deflate::offer_bits_valid(offer),
    ensures
        deflate::answer(offer, policy) is None <==> (offer.server_max_window_bits == Some(8u8)
            || (offer.client_max_window_bits is None && policy.client_max_window_bits
            != DeflateWindowBits::Bits15)),
{
}

/// The parts of a response behind its name.
spec fn response_parts(
    config: DeflateConfig,
    server_bits: Option<u8>,
    client_bits: Option<u8>,
) -> Seq<Seq<char>> {
    (if config.server_no_context_takeover {
        seq![seq![' '] + "server_no_context_takeover"@]
    } else {
        seq![]
    }) + (if config.client_no_context_takeover {
        seq![seq![' '] + "client_no_context_takeover"@]
    } else {
        seq![]
    }) + (match server_bits {
        Some(bits) => seq![seq![' '] + deflate::limit_text("server_max_window_bits"@, bits)],
        None => seq![],
    }) + (match client_bits {
        Some(bits) => seq![seq![' '] + deflate::limit_text("client_max_window_bits"@, bits)],
        None => seq![],
    })
}

/// Parts, each behind a semicolon.
spec fn joined(parts: Seq<Seq<char>>) -> Seq<char>
    decreases parts.len(),
{
    if parts.len() == 0 {
        seq![]
    } else {
        seq![';'] + parts[0] + joined(parts.drop_first())
    }
}

proof fn lemma_joined_concat(a: Seq<Seq<char>>, b: Seq<Seq<char>>)
    ensures
        joined(a + b) == joined(a) + joined(b),
    decreases a.len(),
{
    if a.len() == 0 {
        assert(a + b =~= b);
        assert(joined(a) + joined(b) =~= joined(b));
    } else {
        assert((a + b).drop_first() =~= a.drop_first() + b);
        lemma_joined_concat(a.drop_first(), b);
        assert(joined(a + b) =~= joined(a) + joined(b));
    }
}

proof fn lemma_split_joined(head: Seq<char>, parts: Seq<Seq<char>>)
    requires
        !head.contains(';'),
        forall|i: int| 0 <= i < parts.len() ==> !(#[trigger] parts[i]).contains(';'),
    ensures
        strings::split_on(head + joined(parts), ';') == seq![head] + parts,
    decreases parts.len(),
{
    if parts.len() == 0 {
        assert(head + joined(parts) =~= head);
        strings::lemma_prefix_len(head, ';', seq![]);
        assert(seq![head] + parts =~= seq![head]);
    } else {
        let rest = parts.drop_first();
        let after = parts[0] + joined(rest);
        let whole = head + joined(parts);
        assert(whole =~= head + seq![';'] + after);
        strings::lemma_prefix_len(head, ';', after);
        assert(whole.take(head.len() as int) =~= head);
        assert(whole.skip(head.len() as int + 1) =~= after);
        assert forall|i: int| 0 <= i < rest.len() implies !(#[trigger] rest[i]).contains(';') by {
            assert(rest[i] == parts[i + 1]);
        }
        lemma_split_joined(parts[0], rest);
        assert(seq![head] + (seq![parts[0]] + rest) =~= seq![head] + parts);
    }
}

/// A name of letters and underscores: it stands as it is between separators.
spec fn plain(name: Seq<char>) -> bool {
    &&& name.len() > 0
    &&& forall|i: int| 0 <= i < name.len() ==> 'a' <= #[trigger] name[i] <= 'z' || name[i] == '_'
}

proof fn lemma_names()
    ensures
        plain("server_no_context_takeover"@),
        plain("client_no_context_takeover"@),
        plain("server_max_window_bits"@),
        plain("client_max_window_bits"@),
{
    reveal_strlit("server_no_context_takeover");
    reveal_strlit("client_no_context_takeover");
    reveal_strlit("server_max_window_bits");
    reveal_strlit("client_max_window_bits");
}

/// A flag of a response is read as the parameter of that name.
proof fn lemma_flag(name: Seq<char>)
    requires
        plain(name),
    ensures
        deflate::param_of(seq![' '] + name) == Some((name, None::<Seq<char>>)),
        !(seq![' '] + name).contains(';'),
{
    let part = seq![' '] + name;
    lemma_trim_part(name);
    assert(!name.contains('='));
    strings::lemma_prefix_len(name, '=', seq![]);
}

proof fn lemma_trim_part(body: Seq<char>)
    requires
        body.len() > 0,
        !strings::is_space(body[0]),
        !strings::is_space(body.last()),
    ensures
        strings::trimmed(seq![' '] + body) == body,
        strings::trimmed(body) == body,
{
    let part = seq![' '] + body;
    strings::lemma_trim_range(
        part,
        |c: char| strings::is_space(c),
        1,
        part.len() as int,
    );
    assert(part.subrange(1, part.len() as int) =~= body);
    strings::lemma_trim_range(body, |c: char| strings::is_space(c), 0, body.len() as int);
    assert(body.subrange(0, body.len() as int) =~= body);
}

/// A limit of a response is read as the parameter of that name and that number.
proof fn lemma_limit(name: Seq<char>, bits: u8)
    requires
        plain(name),
        8 <= bits <= 15,
    ensures
        ({
            let digits = text::decimal(bits as nat);
            &&& deflate::param_of(seq![' '] + deflate::limit_text(name, bits)) == Some(
                (name, Some(digits)),
            )
            &&& deflate::window_bits_of(digits) == Some(bits)
            &&& !(seq![' '] + deflate::limit_text(name, bits)).contains(';')
        }),
{
    reveal_strlit("=");
    reveal_with_fuel(text::decimal, 3);
    let digits = text::decimal(bits as nat);
    let body = deflate::limit_text(name, bits);
    if bits < 10 {
        assert(digits =~= seq![text::digit(bits as nat)]);
    } else {
        assert(digits =~= seq!['1', text::digit((bits - 10) as nat)]);
    }
    assert(body =~= name + seq!['='] + digits);
    assert(body.last() == digits.last());
    lemma_trim_part(body);
    lemma_trim_part(name);
    lemma_trim_part(digits);
    strings::lemma_prefix_len(name, '=', digits);
    assert(body.take(name.len() as int) =~= name);
    assert(body.skip(name.len() as int + 1) =~= digits);
    assert(!digits.contains('"'));
    let part = seq![' '] + body;
    assert forall|i: int| 0 <= i < part.len() implies part[i] != ';' by {
        if i > 0 && i <= name.len() {
            assert(part[i] == name[i - 1]);
        }
    }
}

/// Whether limits state the windows of a configuration. A limit of eight bits
/// for the client states a window of nine.
pub open spec fn states_windows(n: NegotiationView) -> bool {
    &&& match n.server_limit {
        Some(bits) => deflate::window_of(bits) == Some(n.config.server_max_window_bits),
        None => n.config.server_max_window_bits == DeflateWindowBits::Bits15,
    }
    &&& match n.client_limit {
        Some(8) => n.config.client_max_window_bits == DeflateWindowBits::Bits9,
        Some(bits) => deflate::window_of(bits) == Some(n.config.client_max_window_bits),
        None => n.config.client_max_window_bits == DeflateWindowBits::Bits15,
    }
}

/// The header of a configuration states its windows.
pub proof fn law_configuration_states_windows(config: DeflateConfig)
    ensures
        states_windows(
            NegotiationView {
                config,
                server_limit: deflate::stated_limit(config.server_max_window_bits),
                client_limit: deflate::stated_limit(config.client_max_window_bits),
            },
        ),
{
}

/// An answer states its windows.
pub proof fn law_answer_states_windows(offer: DeflateOffer, policy: DeflateConfig)
    requires
        deflate::offer_bits_valid(offer),
        deflate::answer(offer, policy) is Some,
    ensures
        states_windows(deflate::answer(offer, policy)->0),
{
}

/// The parameters that a response states.
spec fn response_params(n: NegotiationView) -> Seq<Param> {
    (if n.config.server_no_context_takeover {
        seq![("server_no_context_takeover"@, None::<Seq<char>>)]
    } else {
        seq![]
    }) + (if n.config.client_no_context_takeover {
        seq![("client_no_context_takeover"@, None::<Seq<char>>)]
    } else {
        seq![]
    }) + (match n.server_limit {
        Some(bits) => seq![("server_max_window_bits"@, Some(text::decimal(bits as nat)))],
        None => seq![],
    }) + (match n.client_limit {
        Some(bits) => seq![("client_max_window_bits"@, Some(text::decimal(bits as nat)))],
        None => seq![],
    })
}

proof fn lemma_response_parts(n: NegotiationView)
    requires
        states_windows(n),
    ensures
        ({
            let parts = response_parts(n.config, n.server_limit, n.client_limit);
            let params = response_params(n);
            &&& parts.len() == params.len()
            &&& forall|i: int|
                0 <= i < parts.len() ==> !(#[trigger] parts[i]).contains(';') && deflate::param_of(
                    parts[i],
                ) == Some(params[i])
        }),
{
    lemma_names();
    lemma_flag("server_no_context_takeover"@);
    lemma_flag("client_no_context_takeover"@);
    if let Some(bits) = n.server_limit {
        lemma_limit("server_max_window_bits"@, bits);
    }
    if let Some(bits) = n.client_limit {
        lemma_limit("client_max_window_bits"@, bits);
    }
}

proof fn lemma_header_text(n: NegotiationView)
    ensures
        deflate::header_text(n.config, n.server_limit, n.client_limit) == "permessage-deflate"@
            + joined(response_parts(n.config, n.server_limit, n.client_limit)),
{
    let c = n.config;
    let a: Seq<Seq<char>> = if c.server_no_context_takeover {
        seq![seq![' '] + "server_no_context_takeover"@]
    } else {
        seq![]
    };
    let b: Seq<Seq<char>> = if c.client_no_context_takeover {
        seq![seq![' '] + "client_no_context_takeover"@]
    } else {
        seq![]
    };
    let s: Seq<Seq<char>> = match n.server_limit {
        Some(bits) => seq![seq![' '] + deflate::limit_text("server_max_window_bits"@, bits)],
        None => seq![],
    };
    let t: Seq<Seq<char>> = match n.client_limit {
        Some(bits) => seq![seq![' '] + deflate::limit_text("client_max_window_bits"@, bits)],
        None => seq![],
    };
    lemma_joined_concat(a + b + s, t);
    lemma_joined_concat(a + b, s);
    lemma_joined_concat(a, b);
    lemma_joined_one("server_no_context_takeover"@);
    lemma_joined_one("client_no_context_takeover"@);
    if let Some(bits) = n.server_limit {
        lemma_joined_one(deflate::limit_text("server_max_window_bits"@, bits));
    }
    if let Some(bits) = n.client_limit {
        lemma_joined_one(deflate::limit_text("client_max_window_bits"@, bits));
    }
    let h = "permessage-deflate"@;
    assert(h + (joined(a) + joined(b) + joined(s) + joined(t)) =~= h + joined(a) + joined(b)
        + joined(s) + joined(t));
}

proof fn lemma_joined_one(body: Seq<char>)
    ensures
        joined(seq![seq![' '] + body]) == "; "@ + body,
        joined(seq![]) == Seq::<char>::empty(),
{
    reveal_strlit("; ");
    reveal_with_fuel(joined, 2);
    let parts = seq![seq![' '] + body];
    assert(joined(parts.drop_first()) =~= seq![]);
    assert(joined(parts) =~= seq![';'] + (seq![' '] + body));
    assert(joined(parts) =~= "; "@ + body);
}

proof fn lemma_offer_of_response(n: NegotiationView)
    requires
        states_windows(n),
    ensures
        deflate::offer_of(response_params(n)) == Ok::<DeflateOffer, &'static str>(
            DeflateOffer {
                server_no_context_takeover: n.config.server_no_context_takeover,
                client_no_context_takeover: n.config.client_no_context_takeover,
                server_max_window_bits: n.server_limit,
                client_max_window_bits: match n.client_limit {
                    Some(bits) => Some(Some(bits)),
                    None => None,
                },
            },
        ),
{
    reveal_strlit("server_no_context_takeover");
    reveal_strlit("client_no_context_takeover");
    reveal_strlit("server_max_window_bits");
    reveal_strlit("client_max_window_bits");
    lemma_names();
    assert("server_no_context_takeover"@[0] == 's' && "client_no_context_takeover"@[0] == 'c');
    assert("server_max_window_bits"@[0] == 's' && "client_max_window_bits"@[0] == 'c');
    assert("server_max_window_bits"@.len() != "server_no_context_takeover"@.len());
    assert("client_max_window_bits"@.len() != "client_no_context_takeover"@.len());
    let a: Seq<Param> = if n.config.server_no_context_takeover {
        seq![("server_no_context_takeover"@, None::<Seq<char>>)]
    } else {
        seq![]
    };
    let b: Seq<Param> = if n.config.client_no_context_takeover {
        seq![("client_no_context_takeover"@, None::<Seq<char>>)]
    } else {
        seq![]
    };
    let s: Seq<Param> = match n.server_limit {
        Some(bits) => seq![("server_max_window_bits"@, Some(text::decimal(bits as nat)))],
        None => seq![],
    };
    let t: Seq<Param> = match n.client_limit {
        Some(bits) => seq![("client_max_window_bits"@, Some(text::decimal(bits as nat)))],
        None => seq![],
    };
    if let Some(bits) = n.server_limit {
        lemma_limit("server_max_window_bits"@, bits);
    }
    if let Some(bits) = n.client_limit {
        lemma_limit("client_max_window_bits"@, bits);
    }
    let e = Seq::<Param>::empty();
    lemma_offer_step(e, a);
    assert(e + a =~= a);
    lemma_offer_step(a, b);
    lemma_offer_step(a + b, s);
    lemma_offer_step(a + b + s, t);
}

proof fn lemma_offer_step(before: Seq<Param>, one: Seq<Param>)
    requires
        one.len() <= 1,
    ensures
        one.len() == 0 ==> deflate::offer_of(before + one) == deflate::offer_of(before),
        one.len() == 1 ==> deflate::offer_of(before + one) == match deflate::offer_of(before) {
            Ok(offer) => deflate::with_param(offer, one[0]),
            Err(e) => Err(e),
        },
{
    if one.len() == 0 {
        assert(before + one =~= before);
    } else {
        assert((before + one).drop_last() =~= before);
        assert((before + one).last() == one[0]);
    }
}

/// Whoever reads a response configures the streams as it states: the windows
/// and the context takeover of both sides come back.
pub proof fn law_response_reads_back(n: NegotiationView)
    requires
        states_windows(n),
    ensures
        ({
            let header = deflate::header_text(n.config, n.server_limit, n.client_limit);
            &&& deflate::offer_params(header) is Some
            &&& deflate::config_of(deflate::offer_params(header)->0) == Ok::<
                DeflateConfig,
                &'static str,
            >(
                DeflateConfig {
                    compression_level: deflate::default_config().compression_level,
                    compression_threshold: deflate::default_config().compression_threshold,
                    ..n.config
                },
            )
        }),
{
    let header = deflate::header_text(n.config, n.server_limit, n.client_limit);
    let parts = response_parts(n.config, n.server_limit, n.client_limit);
    let params = response_params(n);
    let head = "permessage-deflate"@;
    reveal_strlit("permessage-deflate");
    lemma_header_text(n);
    lemma_response_parts(n);
    lemma_split_joined(head, parts);
    lemma_trim_part(head);
    let all = strings::split_on(header, ';');
    assert(all =~= seq![head] + parts);
    assert forall|i: int| 1 <= i < all.len() implies #[trigger] deflate::param_of(all[i])
        is Some by {
        assert(all[i] == parts[i - 1]);
    }
    assert(all.drop_first() =~= parts);
    assert(parts.map_values(|p: Seq<char>| deflate::param_of(p)->0) =~= params);
    lemma_offer_of_response(n);
}

// ---------------------------------------------------------------------------
// What is negotiated, in terms of the offers and the policy
// ---------------------------------------------------------------------------

/// A server takes the first element of the header that it can answer, and its
/// answer to the header is its answer to that element; it declines where there
/// is none.
pub proof fn law_first_acceptable_offer_is_taken(offers: Seq<char>, policy: DeflateConfig)
    ensures
        ({
            let elements = strings::split_on(offers, ',');
            match deflate::negotiated(offers, policy) {
                Some(n) => exists|i: int|
                    {
                        &&& 0 <= i < elements.len()
                        &&& #[trigger] deflate::answer_text(elements[i], policy) == Some(n)
                        &&& forall|j: int|
                            0 <= j < i ==> #[trigger] deflate::answer_text(
                                elements[j],
                                policy,
                            ) is None
                    },
                None => forall|j: int|
                    0 <= j < elements.len() ==> #[trigger] deflate::answer_text(
                        elements[j],
                        policy,
                    ) is None,
            }
        }),
{
    let elements = strings::split_on(offers, ',');
    let i = lemma_first_answer(elements, policy);
    if deflate::negotiated(offers, policy) is Some {
        assert(deflate::answer_text(elements[i], policy) == deflate::negotiated(offers, policy));
    }
}

proof fn lemma_first_answer(elements: Seq<Seq<char>>, policy: DeflateConfig) -> (i: int)
    ensures
        0 <= i <= elements.len(),
        forall|j: int| 0 <= j < i ==> #[trigger] deflate::answer_text(elements[j], policy) is None,
        i < elements.len() ==> deflate::answer_text(elements[i], policy) is Some
            && deflate::first_answer(elements, policy) == deflate::answer_text(
            elements[i],
            policy,
        ),
        i == elements.len() ==> deflate::first_answer(elements, policy) is None,
    decreases elements.len(),
{
    if elements.len() == 0 {
        0
    } else if deflate::answer_text(elements[0], policy) is Some {
        0
    } else {
        let rest = elements.drop_first();
        let i = lemma_first_answer(rest, policy);
        assert forall|j: int| 0 <= j < i + 1 implies #[trigger] deflate::answer_text(
            elements[j],
            policy,
        ) is None by {
            if j > 0 {
                assert(elements[j] == rest[j - 1]);
            }
        }
        if i < rest.len() {
            assert(elements[i + 1] == rest[i]);
        }
        i + 1
    }
}

/// Offers are taken in the order in which they stand: what follows counts only
/// where nothing before it could be answered.
pub proof fn law_earlier_offers_win(first: Seq<char>, rest: Seq<char>, policy: DeflateConfig)
    ensures
        deflate::negotiated(first + seq![','] + rest, policy) == if deflate::negotiated(
            first,
            policy,
        ) is Some {
            deflate::negotiated(first, policy)
        } else {
            deflate::negotiated(rest, policy)
        },
        !first.contains(',') ==> deflate::negotiated(first, policy) == deflate::answer_text(
            first,
            policy,
        ),
{
    text_laws::law_splitting_concatenates(first, ',', rest);
    let a = strings::split_on(first, ',');
    let b = strings::split_on(rest, ',');
    let i = lemma_first_answer(a, policy);
    let j = lemma_first_answer(b, policy);
    let k = lemma_first_answer(a + b, policy);
    if i < a.len() {
        assert((a + b)[i] == a[i]);
        if k < i {
            assert((a + b)[k] == a[k]);
            assert(deflate::answer_text(a[k], policy) is None);
        }
        if i < k {
            assert(deflate::answer_text((a + b)[i], policy) is None);
        }
    } else {
        if k < a.len() {
            assert((a + b)[k] == a[k]);
            assert(deflate::answer_text(a[k], policy) is None);
        }
        if k < a.len() + b.len() {
            assert((a + b)[k] == b[k - a.len()]);
            if k - a.len() < j {
                assert(deflate::answer_text(b[k - a.len()], policy) is None);
            }
        }
        if j < b.len() {
            assert((a + b)[a.len() + j] == b[j]);
            if a.len() + j < k {
                assert(deflate::answer_text((a + b)[a.len() + j], policy) is None);
            }
        }
    }
    if !first.contains(',') {
        assert(a == seq![first]);
        assert(a[0] == first);
        reveal_with_fuel(deflate::first_answer, 2);
    }
}

/// The smaller of two numbers.
pub open spec fn least(a: int, b: int) -> int {
    if a <= b {
        a
    } else {
        b
    }
}

/// An answer is the best that both sides allow: each window is as large as the
/// policy and the offer let it be, a side forgets each message exactly where
/// either asks for it, and level and threshold are the policy's. A limit on a
/// window is stated where it is below 15, and the server's also where the offer
/// asked for one.
pub proof fn law_answer_is_the_best_that_both_allow(offer: DeflateOffer, policy: DeflateConfig)
    requires
        deflate::offer_bits_valid(offer),
        deflate::answer(offer, policy) is Some,
    ensures
        ({
            let n = deflate::answer(offer, policy)->0;
            let own = deflate::bits_of(policy.server_max_window_bits) as int;
            let theirs = deflate::bits_of(policy.client_max_window_bits) as int;
            let server = match offer.server_max_window_bits {
                Some(limit) => least(own, limit as int),
                None => own,
            };
            let client = match offer.client_max_window_bits {
                Some(Some(limit)) => least(theirs, limit as int),
                _ => theirs,
            };
            &&& deflate::bits_of(n.config.server_max_window_bits) == server
            &&& deflate::bits_of(n.config.client_max_window_bits) == if client == 8 {
                9
            } else {
                client
            }
            &&& n.config.server_no_context_takeover <==> offer.server_no_context_takeover
                || policy.server_no_context_takeover
            &&& n.config.client_no_context_takeover <==> offer.client_no_context_takeover
                || policy.client_no_context_takeover
            &&& n.config.compression_level == policy.compression_level
            &&& n.config.compression_threshold == policy.compression_threshold
            &&& offer.server_max_window_bits is Some || server < 15 ==> n.server_limit is Some
                && n.server_limit->0 == server
            &&& offer.server_max_window_bits is None && server == 15 ==> n.server_limit is None
            &&& client < 15 ==> n.client_limit is Some && n.client_limit->0 == client
            &&& client == 15 ==> n.client_limit is None
        }),
{
}

/// The number of bits that a window has is what its name says.
pub proof fn law_window_bits_are_numbers(w: DeflateWindowBits, bits: u8)
    ensures
        9 <= deflate::bits_of(w) <= 15,
        deflate::window_of(deflate::bits_of(w)) == Some(w),
        deflate::window_of(bits) is Some <==> 9 <= bits <= 15,
        9 <= bits <= 15 ==> deflate::bits_of(deflate::window_of(bits)->0) == bits,
        w is Bits9 <==> deflate::bits_of(w) == 9,
        w is Bits15 <==> deflate::bits_of(w) == 15,
{
}

/// A limit is written as a decimal number from 8 to 15, without leading zeroes.
pub proof fn law_limits_are_decimal_numbers(v: Seq<char>, bits: u8)
    ensures
        deflate::window_bits_of(v) == Some(bits) <==> 8 <= bits <= 15 && v == text::decimal(
            bits as nat,
        ),
{
    reveal_with_fuel(text::decimal, 3);
    assert(text::decimal(8) =~= seq!['8']);
    assert(text::decimal(9) =~= seq!['9']);
    if deflate::window_bits_of(v) == Some(bits) {
        assert(v =~= text::decimal(bits as nat));
    }
    if 8 <= bits <= 15 && v == text::decimal(bits as nat) {
        if bits >= 10 {
            assert(v.len() == 2);
            assert(v[0] == '1');
            assert(v[1] as u32 == 48 + (bits - 10));
            assert('0' <= v[1] <= '5');
            assert(v != seq!['8'] && v != seq!['9']);
        } else if bits == 9 {
            assert(v[0] == '9');
            assert(v != seq!['8']) by {
                assert(seq!['8'][0] == '8');
            }
        }
        assert(deflate::window_bits_of(v) == Some(bits));
    }
}

/// Whether a parameter may stand in an offer, and with this value: the flags
/// have none, the server's limit has one, and the client's may have one.
pub open spec fn param_allowed(p: Param) -> bool {
    ||| p.0 == "server_no_context_takeover"@ && p.1 is None
    ||| p.0 == "client_no_context_takeover"@ && p.1 is None
    ||| p.0 == "server_max_window_bits"@ && p.1 is Some && deflate::window_bits_of(p.1->0) is Some
    ||| p.0 == "client_max_window_bits"@ && (p.1 is Some ==> deflate::window_bits_of(
        p.1->0,
    ) is Some)
}

/// Whether a parameter of this name stands among some.
pub open spec fn names(params: Seq<Param>, name: Seq<char>) -> bool {
    exists|i: int| 0 <= i < params.len() && (#[trigger] params[i]).0 == name
}

/// Parameters can be read together exactly where each is one of the four, with
/// a value that it may have, and none stands twice. What they ask for is then
/// what each of them says, in whatever order they stand.
pub proof fn law_parameters_are_read_one_by_one(params: Seq<Param>)
    ensures
        deflate::offer_of(params) is Ok <==> {
            &&& forall|i: int| 0 <= i < params.len() ==> param_allowed(#[trigger] params[i])
            &&& forall|i: int, j: int|
                0 <= i < j < params.len() ==> (#[trigger] params[i]).0 != (#[trigger] params[j]).0
        },
        deflate::offer_of(params) matches Ok(offer) ==> {
            &&& offer.server_no_context_takeover <==> names(params, "server_no_context_takeover"@)
            &&& offer.client_no_context_takeover <==> names(params, "client_no_context_takeover"@)
            &&& offer.server_max_window_bits is Some <==> names(params, "server_max_window_bits"@)
            &&& offer.client_max_window_bits is Some <==> names(params, "client_max_window_bits"@)
            &&& forall|i: int|
                0 <= i < params.len() && (#[trigger] params[i]).0 == "server_max_window_bits"@
                    ==> offer.server_max_window_bits == deflate::window_bits_of(params[i].1->0)
            &&& forall|i: int|
                0 <= i < params.len() && (#[trigger] params[i]).0 == "client_max_window_bits"@
                    ==> offer.client_max_window_bits == (match params[i].1 {
                    Some(v) => Some(deflate::window_bits_of(v)),
                    None => Some(None),
                })
        },
    decreases params.len(),
{
    lemma_names_differ();
    if params.len() > 0 {
        let init = params.drop_last();
        let last = params.last();
        law_parameters_are_read_one_by_one(init);
        assert forall|i: int| 0 <= i < init.len() implies #[trigger] init[i] == params[i] by {}
        assert forall|name: Seq<char>| #[trigger] names(params, name) <==> names(init, name)
            || last.0 == name by {
            if names(params, name) {
                let i = choose|i: int| 0 <= i < params.len() && (#[trigger] params[i]).0 == name;
                if i < init.len() {
                    assert(init[i].0 == name);
                }
            }
            if names(init, name) {
                let i = choose|i: int| 0 <= i < init.len() && (#[trigger] init[i]).0 == name;
                assert(params[i].0 == name);
            }
            if last.0 == name {
                assert(params[params.len() - 1].0 == name);
            }
        }
        let distinct = forall|i: int, j: int|
            0 <= i < j < params.len() ==> (#[trigger] params[i]).0 != (#[trigger] params[j]).0;
        let distinct_before = forall|i: int, j: int|
            0 <= i < j < init.len() ==> (#[trigger] init[i]).0 != (#[trigger] init[j]).0;
        assert(distinct <==> distinct_before && !names(init, last.0)) by {
            if distinct {
                if names(init, last.0) {
                    let i = choose|i: int| 0 <= i < init.len() && (#[trigger] init[i]).0 == last.0;
                    assert(params[i].0 != params[params.len() - 1].0);
                }
            }
            if distinct_before && !names(init, last.0) {
                assert forall|i: int, j: int| 0 <= i < j < params.len() implies (
                #[trigger] params[i]).0 != (#[trigger] params[j]).0 by {
                    assert(init[i] == params[i]);
                    if j < init.len() {
                        assert(init[j] == params[j]);
                    }
                }
            }
        }
        let all = forall|i: int| 0 <= i < params.len() ==> param_allowed(#[trigger] params[i]);
        let all_before = forall|i: int| 0 <= i < init.len() ==> param_allowed(#[trigger] init[i]);
        assert(all <==> all_before && param_allowed(last)) by {
            if all {
                assert forall|i: int| 0 <= i < init.len() implies param_allowed(
                    #[trigger] init[i],
                ) by {
                    assert(init[i] == params[i]);
                }
                assert(params[params.len() - 1] == last);
            }
            if all_before && param_allowed(last) {
                assert forall|i: int| 0 <= i < params.len() implies param_allowed(
                    #[trigger] params[i],
                ) by {
                    if i < init.len() {
                        assert(init[i] == params[i]);
                    }
                }
            }
        }
        if deflate::offer_of(params) is Ok {
            let offer = deflate::offer_of(params)->Ok_0;
            let before = deflate::offer_of(init)->Ok_0;
            assert(!names(init, last.0));
            assert forall|i: int|
                0 <= i < params.len() && (#[trigger] params[i]).0
                    == "server_max_window_bits"@ implies offer.server_max_window_bits
                == deflate::window_bits_of(params[i].1->0) by {
                if i < init.len() {
                    assert(init[i].0 == "server_max_window_bits"@);
                    assert(before.server_max_window_bits == deflate::window_bits_of(
                        init[i].1->0,
                    ));
                }
            }
            assert forall|i: int|
                0 <= i < params.len() && (#[trigger] params[i]).0
                    == "client_max_window_bits"@ implies offer.client_max_window_bits == (
            match params[i].1 {
                Some(v) => Some(deflate::window_bits_of(v)),
                None => Some(None),
            }) by {
                if i < init.len() {
                    assert(init[i].0 == "client_max_window_bits"@);
                }
            }
        }
    }
}

proof fn lemma_names_differ()
    ensures
        "server_no_context_takeover"@ != "client_no_context_takeover"@,
        "server_no_context_takeover"@ != "server_max_window_bits"@,
        "server_no_context_takeover"@ != "client_max_window_bits"@,
        "client_no_context_takeover"@ != "server_max_window_bits"@,
        "client_no_context_takeover"@ != "client_max_window_bits"@,
        "server_max_window_bits"@ != "client_max_window_bits"@,
{
    reveal_strlit("server_no_context_takeover");
    reveal_strlit("client_no_context_takeover");
    reveal_strlit("server_max_window_bits");
    reveal_strlit("client_max_window_bits");
    assert("server_no_context_takeover"@[0] == 's');
    assert("client_no_context_takeover"@[0] == 'c');
    assert("server_max_window_bits"@[0] == 's');
    assert("client_max_window_bits"@[0] == 'c');
    assert("server_no_context_takeover"@.len() != "server_max_window_bits"@.len());
    assert("client_no_context_takeover"@.len() != "client_max_window_bits"@.len());
}

/// What a client takes from a response: the windows that it states, 15 where it
/// states none, and nine for a client's window of eight. A server's window of
/// eight is refused.
pub proof fn law_response_sets_configuration(params: Seq<Param>)
    ensures
        deflate::config_of(params) is Ok <==> deflate::offer_of(params) is Ok
            && deflate::offer_of(params)->Ok_0.server_max_window_bits != Some(8u8),
        deflate::config_of(params) matches Ok(config) ==> {
            let offer = deflate::offer_of(params)->Ok_0;
            &&& deflate::bits_of(config.server_max_window_bits)
                == match offer.server_max_window_bits {
                Some(bits) => bits,
                None => 15,
            }
            &&& deflate::bits_of(config.client_max_window_bits)
                == match offer.client_max_window_bits {
                Some(Some(bits)) => if bits == 8 {
                    9
                } else {
                    bits
                },
                _ => 15,
            }
            &&& config.server_no_context_takeover == offer.server_no_context_takeover
            &&& config.client_no_context_takeover == offer.client_no_context_takeover
            &&& config.compression_level == 6
            &&& config.compression_threshold == 32
        },
{
    lemma_offer_bits_valid(params);
}

proof fn lemma_offer_bits_valid(params: Seq<Param>)
    ensures
        deflate::offer_of(params) matches Ok(offer) ==> deflate::offer_bits_valid(offer),
    decreases params.len(),
{
    if params.len() > 0 {
        lemma_offer_bits_valid(params.drop_last());
    }
}

/// An element offers the extension where its first part is the extension's
/// name, whatever whitespace is around it, and nowhere else.
pub proof fn law_only_the_extension_is_offered(
    left: Seq<char>,
    name: Seq<char>,
    right: Seq<char>,
    rest: Seq<char>,
)
    requires
        forall|i: int| 0 <= i < left.len() ==> strings::is_space(#[trigger] left[i]),
        forall|i: int| 0 <= i < right.len() ==> strings::is_space(#[trigger] right[i]),
        name.len() > 0 ==> !strings::is_space(name[0]) && !strings::is_space(name.last()),
        !name.contains(';'),
    ensures
        name != "permessage-deflate"@ ==> deflate::offer_params(left + name + right) is None
            && deflate::offer_params(left + name + right + seq![';'] + rest) is None,
        name == "permessage-deflate"@ ==> deflate::offer_params(left + name + right) == Some(
            Seq::<Param>::empty(),
        ),
        name == "permessage-deflate"@ && !rest.contains(';') ==> deflate::offer_params(
            left + name + right + seq![';'] + rest,
        ) == match deflate::param_of(rest) {
            Some(p) => Some(seq![p]),
            None => None,
        },
{
    let head = left + name + right;
    assert(!head.contains(';')) by {
        if head.contains(';') {
            let i = choose|i: int| 0 <= i < head.len() && head[i] == ';';
            if i < left.len() {
                assert(left[i] == ';');
            } else if i < left.len() + name.len() {
                assert(name[i - left.len()] == ';');
                assert(name.contains(';'));
            } else {
                assert(right[i - left.len() - name.len()] == ';');
            }
        }
    }
    text_laws::law_trimming_takes_whitespace_off(left, name, right);
    text_laws::law_splitting_concatenates(head, ';', rest);
    let one = strings::split_on(head, ';');
    assert(one == seq![head]);
    assert(one[0] == head);
    assert(one.drop_first().map_values(|p: Seq<char>| deflate::param_of(p)->0) =~= Seq::<
        Param,
    >::empty());
    let more = strings::split_on(head + seq![';'] + rest, ';');
    assert(more == seq![head] + strings::split_on(rest, ';'));
    assert(more[0] == head);
    if !rest.contains(';') {
        text_laws::law_splitting_concatenates(rest, ';', rest);
        assert(strings::split_on(rest, ';') == seq![rest]);
        assert(more[1] == rest);
        assert(more.len() == 2);
        if deflate::param_of(rest) is Some {
            assert(more.drop_first().map_values(|p: Seq<char>| deflate::param_of(p)->0) =~= seq![
                deflate::param_of(rest)->0,
            ]);
        } else {
            assert(deflate::param_of(more[1]) is None);
        }
    }
}

/// How one part of an offer is read: a name alone, or a name and a value with
/// or without quotes, whatever whitespace is around each.
pub proof fn law_parameters_are_name_and_value(
    before: Seq<char>,
    name: Seq<char>,
    between: Seq<char>,
    value: Seq<char>,
    after: Seq<char>,
)
    requires
        forall|i: int| 0 <= i < before.len() ==> strings::is_space(#[trigger] before[i]),
        forall|i: int| 0 <= i < between.len() ==> strings::is_space(#[trigger] between[i]),
        forall|i: int| 0 <= i < after.len() ==> strings::is_space(#[trigger] after[i]),
        name.len() > 0,
        !strings::is_space(name[0]) && !strings::is_space(name.last()),
        !name.contains('='),
        !value.contains('"'),
        value.len() > 0,
        !strings::is_space(value[0]) && !strings::is_space(value.last()),
    ensures
        deflate::param_of(before + name + after) == Some((name, None::<Seq<char>>)),
        deflate::param_of(before + (name + between + seq!['='] + between + value) + after) == Some(
            (name, Some(value)),
        ),
        deflate::param_of(
            before + (name + between + seq!['='] + between + (seq!['"'] + value + seq!['"']))
                + after,
        ) == Some((name, Some(value))),
{
    text_laws::law_trimming_takes_whitespace_off(before, name, after);
    strings::lemma_prefix_len(name, '=', Seq::empty());
    lemma_valued(before, name, between, value, after, value);
    let quoted = seq!['"'] + value + seq!['"'];
    assert(quoted.subrange(1, quoted.len() - 1) =~= value);
    lemma_valued(before, name, between, quoted, after, value);
}

proof fn lemma_valued(
    before: Seq<char>,
    name: Seq<char>,
    between: Seq<char>,
    written: Seq<char>,
    after: Seq<char>,
    value: Seq<char>,
)
    requires
        forall|i: int| 0 <= i < before.len() ==> strings::is_space(#[trigger] before[i]),
        forall|i: int| 0 <= i < between.len() ==> strings::is_space(#[trigger] between[i]),
        forall|i: int| 0 <= i < after.len() ==> strings::is_space(#[trigger] after[i]),
        name.len() > 0,
        !strings::is_space(name[0]) && !strings::is_space(name.last()),
        !name.contains('='),
        written.len() > 0,
        !strings::is_space(written[0]) && !strings::is_space(written.last()),
        deflate::unquoted(written) == Some(value),
    ensures
        deflate::param_of(before + (name + between + seq!['='] + between + written) + after)
            == Some((name, Some(value))),
{
    let body = name + between + seq!['='] + between + written;
    assert(body[0] == name[0]);
    assert(body.last() == written.last());
    text_laws::law_trimming_takes_whitespace_off(before, body, after);
    let front = name + between;
    assert(!front.contains('=')) by {
        if front.contains('=') {
            let i = choose|i: int| 0 <= i < front.len() && front[i] == '=';
            if i < name.len() {
                assert(name[i] == '=');
                assert(name.contains('='));
            } else {
                assert(between[i - name.len()] == '=');
            }
        }
    }
    assert(body =~= front + seq!['='] + (between + written));
    strings::lemma_prefix_len(front, '=', between + written);
    let n = front.len() as int;
    assert(body.skip(n + 1) =~= between + written + Seq::<char>::empty());
    assert(body.take(n) =~= Seq::<char>::empty() + name + between);
    text_laws::law_trimming_takes_whitespace_off(between, written, Seq::empty());
    text_laws::law_trimming_takes_whitespace_off(Seq::empty(), name, between);
}

/// Quotes around a value are taken off. A quote anywhere else, or one without
/// the other, spoils the value.
pub proof fn law_quotes_come_in_pairs(v: Seq<char>)
    ensures
        !v.contains('"') ==> deflate::unquoted(v) == Some(v),
        deflate::unquoted(seq!['"'] + v + seq!['"']) == Some(v),
        deflate::unquoted(seq!['"']) is None,
        v.contains('"') && (v[0] != '"' || v.last() != '"') ==> deflate::unquoted(v) is None,
{
    let quoted = seq!['"'] + v + seq!['"'];
    assert(quoted.subrange(1, quoted.len() - 1) =~= v);
}

} // verus!
