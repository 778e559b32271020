//! Per-message compression (RFC 7692): the extension's parameters, their
//! negotiation, and the streams that compress and decompress messages.
pub use crate::deflate_stream::{DeflateContext, DeflateDecoder, DeflateEncoder};
use crate::error::{Error, Result};
use crate::strings;
use crate::text;
use crate::text::push_decimal;
use vstd::prelude::*;
use vstd::string::{StrSliceExecFns, StringExecFns};

verus! {

/// The size of a DEFLATE window, as the number of bits that address it.
#[derive(Debug, Clone, Copy, PartialEq, Eq, PartialOrd, Ord, Hash, Structural)]
pub enum DeflateWindowBits {
    /// 512 bytes
    Bits9,
    /// 1 KiB
    Bits10,
    /// 2 KiB
    Bits11,
    /// 4 KiB
    Bits12,
    /// 8 KiB
    Bits13,
    /// 16 KiB
    Bits14,
    /// 32 KiB
    Bits15,
}

/// The number of bits of a window size.
pub open spec fn bits_of(w: DeflateWindowBits) -> u8 {
    match w {
        DeflateWindowBits::Bits9 => 9,
        DeflateWindowBits::Bits10 => 10,
        DeflateWindowBits::Bits11 => 11,
        DeflateWindowBits::Bits12 => 12,
        DeflateWindowBits::Bits13 => 13,
        DeflateWindowBits::Bits14 => 14,
        DeflateWindowBits::Bits15 => 15,
    }
}

/// The window size of a number of bits, where the compressor supports it.
pub open spec fn window_of(bits: u8) -> Option<DeflateWindowBits> {
    if bits == 9 {
        Some(DeflateWindowBits::Bits9)
    } else if bits == 10 {
        Some(DeflateWindowBits::Bits10)
    } else if bits == 11 {
        Some(DeflateWindowBits::Bits11)
    } else if bits == 12 {
        Some(DeflateWindowBits::Bits12)
    } else if bits == 13 {
        Some(DeflateWindowBits::Bits13)
    } else if bits == 14 {
        Some(DeflateWindowBits::Bits14)
    } else if bits == 15 {
        Some(DeflateWindowBits::Bits15)
    } else {
        None
    }
}

impl From<DeflateWindowBits> for u8 {
    fn from(w: DeflateWindowBits) -> (bits: u8) {
        match w {
            DeflateWindowBits::Bits9 => 9,
            DeflateWindowBits::Bits10 => 10,
            DeflateWindowBits::Bits11 => 11,
            DeflateWindowBits::Bits12 => 12,
            DeflateWindowBits::Bits13 => 13,
            DeflateWindowBits::Bits14 => 14,
            DeflateWindowBits::Bits15 => 15,
        }
    }
}

impl vstd::std_specs::convert::FromSpecImpl<DeflateWindowBits> for u8 {
    open spec fn obeys_from_spec() -> bool {
        true
    }

    open spec fn from_spec(w: DeflateWindowBits) -> u8 {
        bits_of(w)
    }
}

impl TryFrom<u8> for DeflateWindowBits {
    type Error = u8;

    fn try_from(bits: u8) -> (r: core::result::Result<Self, u8>) {
        match bits {
            9 => Ok(DeflateWindowBits::Bits9),
            10 => Ok(DeflateWindowBits::Bits10),
            11 => Ok(DeflateWindowBits::Bits11),
            12 => Ok(DeflateWindowBits::Bits12),
            13 => Ok(DeflateWindowBits::Bits13),
            14 => Ok(DeflateWindowBits::Bits14),
            15 => Ok(DeflateWindowBits::Bits15),
            _ => Err(bits),
        }
    }
}

impl vstd::std_specs::convert::TryFromSpecImpl<u8> for DeflateWindowBits {
    open spec fn obeys_try_from_spec() -> bool {
        true
    }

    open spec fn try_from_spec(bits: u8) -> core::result::Result<Self, u8> {
        match window_of(bits) {
            Some(w) => Ok(w),
            None => Err(bits),
        }
    }
}

/// Default LZ77 window size
pub const DEFAULT_WINDOW_BITS: DeflateWindowBits = DeflateWindowBits::Bits15;

/// Smallest LZ77 window size that the compressor supports
pub const MIN_WINDOW_BITS: DeflateWindowBits = DeflateWindowBits::Bits9;

/// Largest LZ77 window size
pub const MAX_WINDOW_BITS: DeflateWindowBits = DeflateWindowBits::Bits15;

/// Configuration of the permessage-deflate extension
#[derive(Debug, PartialEq, Eq, Hash, Structural)]
pub struct DeflateConfig {
    /// Largest window of the server's compressor
    pub server_max_window_bits: DeflateWindowBits,
    /// Largest window of the client's compressor
    pub client_max_window_bits: DeflateWindowBits,
    /// Whether the server starts each message with an empty window
    pub server_no_context_takeover: bool,
    /// Whether the client starts each message with an empty window
    pub client_no_context_takeover: bool,
    /// Compression level, from 0 (none) to 9 (best)
    pub compression_level: u32,
    /// Messages shorter than this are not compressed
    pub compression_threshold: usize,
}

impl Clone for DeflateConfig {
    fn clone(&self) -> (r: Self)
        ensures
            r == *self,
    {
        DeflateConfig {
            server_max_window_bits: self.server_max_window_bits,
            client_max_window_bits: self.client_max_window_bits,
            server_no_context_takeover: self.server_no_context_takeover,
            client_no_context_takeover: self.client_no_context_takeover,
            compression_level: self.compression_level,
            compression_threshold: self.compression_threshold,
        }
    }
}

/// The default configuration.
pub open spec fn default_config() -> DeflateConfig {
    DeflateConfig {
        server_max_window_bits: DeflateWindowBits::Bits15,
        client_max_window_bits: DeflateWindowBits::Bits15,
        server_no_context_takeover: false,
        client_no_context_takeover: false,
        compression_level: 6,
        compression_threshold: 32,
    }
}

impl Default for DeflateConfig {
    fn default() -> (r: Self)
        ensures
            r == default_config(),
    {
        DeflateConfig {
            server_max_window_bits: DEFAULT_WINDOW_BITS,
            client_max_window_bits: DEFAULT_WINDOW_BITS,
            server_no_context_takeover: false,
            client_no_context_takeover: false,
            compression_level: 6,
            compression_threshold: 32,
        }
    }
}

/// A parameter as it stands in an offer: its name, and its value where it has one.
pub type Param = (Seq<char>, Option<Seq<char>>);

/// The parameters held by string slices.
pub open spec fn param_views(params: Seq<(&str, Option<&str>)>) -> Seq<Param> {
    params.map_values(|p: (&str, Option<&str>)| param_view(p))
}

/// The parameter held by string slices.
pub open spec fn param_view(p: (&str, Option<&str>)) -> Param {
    (
        p.0@,
        match p.1 {
            Some(v) => Some(v@),
            None => None,
        },
    )
}

/// The value between a pair of quotes, or a value without quotes.
pub open spec fn unquoted(v: Seq<char>) -> Option<Seq<char>> {
    if v.len() > 0 && v[0] == '"' && v.last() == '"' {
        if v.len() >= 2 {
            Some(v.subrange(1, v.len() - 1))
        } else {
            None
        }
    } else if v.contains('"') {
        None
    } else {
        Some(v)
    }
}

/// The parameter that one part of an offer states.
pub open spec fn param_of(part: Seq<char>) -> Option<Param> {
    let p = strings::trimmed(part);
    let n = strings::prefix_len(p, '=') as int;
    if p.len() == 0 {
        None
    } else if n >= p.len() {
        Some((p, None))
    } else {
        match unquoted(strings::trimmed(p.skip(n + 1))) {
            Some(v) => Some((strings::trimmed(p.take(n)), Some(v))),
            None => None,
        }
    }
}

/// The parameters of an offer of permessage-deflate.
pub open spec fn offer_params(value: Seq<char>) -> Option<Seq<Param>> {
    let parts = strings::split_on(value, ';');
    if strings::trimmed(parts[0]) != "permessage-deflate"@ {
        None
    } else if exists|i: int| 1 <= i < parts.len() && #[trigger] param_of(parts[i]) is None {
        None
    } else {
        Some(parts.drop_first().map_values(|p: Seq<char>| param_of(p)->0))
    }
}

/// The number of bits that a parameter's value states: 8 to 15, without leading zeroes.
pub open spec fn window_bits_of(v: Seq<char>) -> Option<u8> {
    if v == seq!['8'] {
        Some(8)
    } else if v == seq!['9'] {
        Some(9)
    } else if v.len() == 2 && v[0] == '1' && '0' <= v[1] <= '5' {
        Some((10 + (v[1] as u32 - '0' as u32)) as u8)
    } else {
        None
    }
}

/// What an offer of permessage-deflate asks for.
pub struct DeflateOffer {
    /// The server is to start each message with an empty window
    pub server_no_context_takeover: bool,
    /// The client is able to start each message with an empty window
    pub client_no_context_takeover: bool,
    /// Largest window that the server may use
    pub server_max_window_bits: Option<u8>,
    /// The client takes a limit on its window, and perhaps sets one
    pub client_max_window_bits: Option<Option<u8>>,
}

/// An offer that asks for nothing.
pub open spec fn empty_offer() -> DeflateOffer {
    DeflateOffer {
        server_no_context_takeover: false,
        client_no_context_takeover: false,
        server_max_window_bits: None,
        client_max_window_bits: None,
    }
}

/// An offer with one more parameter, or why it cannot have it.
pub open spec fn with_param(offer: DeflateOffer, param: Param) -> core::result::Result<
    DeflateOffer,
    &'static str,
> {
    let (name, value) = param;
    if name == "server_no_context_takeover"@ {
        if offer.server_no_context_takeover {
            Err("duplicate server_no_context_takeover")
        } else if value is Some {
            Err("server_no_context_takeover must not have a value")
        } else {
            Ok(DeflateOffer { server_no_context_takeover: true, ..offer })
        }
    } else if name == "client_no_context_takeover"@ {
        if offer.client_no_context_takeover {
            Err("duplicate client_no_context_takeover")
        } else if value is Some {
            Err("client_no_context_takeover must not have a value")
        } else {
            Ok(DeflateOffer { client_no_context_takeover: true, ..offer })
        }
    } else if name == "server_max_window_bits"@ {
        if offer.server_max_window_bits is Some {
            Err("duplicate server_max_window_bits")
        } else {
            match value {
                None => Err("server_max_window_bits requires a value"),
                Some(v) => match window_bits_of(v) {
                    None => Err("invalid server_max_window_bits value"),
                    Some(bits) => Ok(DeflateOffer { server_max_window_bits: Some(bits), ..offer }),
                },
            }
        }
    } else if name == "client_max_window_bits"@ {
        if offer.client_max_window_bits is Some {
            Err("duplicate client_max_window_bits")
        } else {
            match value {
                None => Ok(DeflateOffer { client_max_window_bits: Some(None), ..offer }),
                Some(v) => match window_bits_of(v) {
                    None => Err("invalid client_max_window_bits value"),
                    Some(bits) => Ok(
                        DeflateOffer { client_max_window_bits: Some(Some(bits)), ..offer },
                    ),
                },
            }
        }
    } else {
        Err("unknown permessage-deflate parameter")
    }
}

/// What parameters ask for together, or why they cannot stand together.
pub open spec fn offer_of(params: Seq<Param>) -> core::result::Result<DeflateOffer, &'static str>
    decreases params.len(),
{
    if params.len() == 0 {
        Ok(empty_offer())
    } else {
        match offer_of(params.drop_last()) {
            Ok(offer) => with_param(offer, params.last()),
            Err(e) => Err(e),
        }
    }
}

/// The configuration that parameters set, or why they set none.
pub open spec fn config_of(params: Seq<Param>) -> core::result::Result<
    DeflateConfig,
    &'static str,
> {
    match offer_of(params) {
        Err(e) => Err(e),
        Ok(offer) => {
            let server = match offer.server_max_window_bits {
                Some(bits) => window_of(bits),
                None => Some(DeflateWindowBits::Bits15),
            };
            let client = match offer.client_max_window_bits {
                Some(Some(bits)) => if bits == 8 {
                    Some(DeflateWindowBits::Bits9)
                } else {
                    window_of(bits)
                },
                _ => Some(DeflateWindowBits::Bits15),
            };
            if server is None {
                Err("unsupported server_max_window_bits value")
            } else if client is None {
                Err("unsupported client_max_window_bits value")
            } else {
                Ok(
                    DeflateConfig {
                        server_max_window_bits: server->0,
                        client_max_window_bits: client->0,
                        server_no_context_takeover: offer.server_no_context_takeover,
                        client_no_context_takeover: offer.client_no_context_takeover,
                        ..default_config()
                    },
                )
            }
        },
    }
}

/// The text of a response that states these parameters.
pub open spec fn header_text(
    config: DeflateConfig,
    server_bits: Option<u8>,
    client_bits: Option<u8>,
) -> Seq<char> {
    "permessage-deflate"@ + (if config.server_no_context_takeover {
        "; "@ + "server_no_context_takeover"@
    } else {
        seq![]
    }) + (if config.client_no_context_takeover {
        "; "@ + "client_no_context_takeover"@
    } else {
        seq![]
    }) + (match server_bits {
        Some(bits) => "; "@ + limit_text("server_max_window_bits"@, bits),
        None => seq![],
    }) + (match client_bits {
        Some(bits) => "; "@ + limit_text("client_max_window_bits"@, bits),
        None => seq![],
    })
}

/// The text of a parameter that limits a window.
pub open spec fn limit_text(name: Seq<char>, bits: u8) -> Seq<char> {
    name + "="@ + text::decimal(bits as nat)
}

/// The limit that a response states for a window: none for the largest.
pub open spec fn stated_limit(w: DeflateWindowBits) -> Option<u8> {
    if bits_of(w) < 15 {
        Some(bits_of(w))
    } else {
        None
    }
}

fn response_header(
    config: &DeflateConfig,
    server_max_window_bits: Option<u8>,
    client_max_window_bits: Option<u8>,
) -> (r: String)
    ensures
        r@ == header_text(*config, server_max_window_bits, client_max_window_bits),
{
    let mut out = String::from_str("permessage-deflate");
    push_flag(&mut out, "server_no_context_takeover", config.server_no_context_takeover);
    push_flag(&mut out, "client_no_context_takeover", config.client_no_context_takeover);
    push_limit(&mut out, "server_max_window_bits", server_max_window_bits);
    push_limit(&mut out, "client_max_window_bits", client_max_window_bits);
    out
}

fn push_flag(out: &mut String, name: &str, on: bool)
    ensures
        final(out)@ == old(out)@ + (if on {
            "; "@ + name@
        } else {
            seq![]
        }),
{
    if on {
        out.append("; ");
        out.append(name);
        assert(out@ =~= old(out)@ + ("; "@ + name@));
    } else {
        assert(out@ =~= old(out)@ + seq![]);
    }
}

fn push_limit(out: &mut String, name: &str, limit: Option<u8>)
    ensures
        final(out)@ == old(out)@ + (match limit {
            Some(bits) => "; "@ + limit_text(name@, bits),
            None => seq![],
        }),
{
    match limit {
        Some(bits) => {
            out.append("; ");
            out.append(name);
            out.append("=");
            push_decimal(out, bits as u64);
            assert(out@ =~= old(out)@ + ("; "@ + limit_text(name@, bits)));
        },
        None => {
            assert(out@ =~= old(out)@ + seq![]);
        },
    }
}

fn limit_to_state(w: DeflateWindowBits) -> (r: Option<u8>)
    ensures
        r == stated_limit(w),
{
    let bits: u8 = u8::from(w);
    if bits < 15 {
        Some(bits)
    } else {
        None
    }
}

impl DeflateConfig {
    /// A configuration for small memory: small windows that no message leaves
    /// anything in, and fast compression.
    pub fn low_memory() -> (r: Self)
        ensures
            r == (DeflateConfig {
                server_max_window_bits: DeflateWindowBits::Bits10,
                client_max_window_bits: DeflateWindowBits::Bits10,
                server_no_context_takeover: true,
                client_no_context_takeover: true,
                compression_level: 1,
                compression_threshold: 64,
            }),
    {
        DeflateConfig {
            server_max_window_bits: DeflateWindowBits::Bits10,
            client_max_window_bits: DeflateWindowBits::Bits10,
            server_no_context_takeover: true,
            client_no_context_takeover: true,
            compression_level: 1,
            compression_threshold: 64,
        }
    }

    /// A configuration for the best compression.
    pub fn best_compression() -> (r: Self)
        ensures
            r == (DeflateConfig {
                server_max_window_bits: DeflateWindowBits::Bits15,
                client_max_window_bits: DeflateWindowBits::Bits15,
                server_no_context_takeover: false,
                client_no_context_takeover: false,
                compression_level: 9,
                compression_threshold: 16,
            }),
    {
        DeflateConfig {
            server_max_window_bits: MAX_WINDOW_BITS,
            client_max_window_bits: MAX_WINDOW_BITS,
            server_no_context_takeover: false,
            client_no_context_takeover: false,
            compression_level: 9,
            compression_threshold: 16,
        }
    }

    /// The configuration that the parameters of an extension set.
    pub fn from_params(params: &[(&str, Option<&str>)]) -> (r: Result<Self>)
        ensures
            match config_of(param_views(params@)) {
                Ok(config) => r == Ok::<Self, Error>(config),
                Err(e) => r == Err::<Self, Error>(Error::HandshakeFailed(e)),
            },
    {
        let parsed = match DeflateOffer::from_params(params) {
            Ok(offer) => offer,
            Err(e) => return Err(Error::HandshakeFailed(e)),
        };
        let mut config = DeflateConfig::default();
        config.server_no_context_takeover = parsed.server_no_context_takeover;
        config.client_no_context_takeover = parsed.client_no_context_takeover;
        if let Some(bits) = parsed.server_max_window_bits {
            match DeflateWindowBits::try_from(bits) {
                Ok(w) => config.server_max_window_bits = w,
                Err(_) => {
                    return Err(
                        Error::HandshakeFailed("unsupported server_max_window_bits value"),
                    );
                },
            }
        }
        if let Some(Some(bits)) = parsed.client_max_window_bits {
            if bits == 8 {
                config.client_max_window_bits = DeflateWindowBits::Bits9;
            } else {
                match DeflateWindowBits::try_from(bits) {
                    Ok(w) => config.client_max_window_bits = w,
                    Err(_) => {
                        return Err(
                            Error::HandshakeFailed("unsupported client_max_window_bits value"),
                        );
                    },
                }
            }
        }
        Ok(config)
    }

    /// The value of the header with which a server answers.
    pub fn to_response_header(&self) -> (r: String)
        ensures
            r@ == header_text(
                *self,
                stated_limit(self.server_max_window_bits),
                stated_limit(self.client_max_window_bits),
            ),
    {
        response_header(
            self,
            limit_to_state(self.server_max_window_bits),
            limit_to_state(self.client_max_window_bits),
        )
    }
}

proof fn lemma_offer_error(params: Seq<Param>, i: int)
    requires
        0 <= i <= params.len(),
        offer_of(params.take(i)) is Err,
    ensures
        offer_of(params) == offer_of(params.take(i)),
    decreases params.len(),
{
    if i == params.len() {
        assert(params.take(i) =~= params);
    } else {
        assert(params.drop_last().take(i) =~= params.take(i));
        lemma_offer_error(params.drop_last(), i);
    }
}

impl DeflateOffer {
    /// What parameters ask for together.
    pub fn from_params(params: &[(&str, Option<&str>)]) -> (r: core::result::Result<
        Self,
        &'static str,
    >)
        ensures
            r == offer_of(param_views(params@)),
    {
        let mut offer = DeflateOffer {
            server_no_context_takeover: false,
            client_no_context_takeover: false,
            server_max_window_bits: None,
            client_max_window_bits: None,
        };
        let ghost all = param_views(params@);
        let mut i: usize = 0;
        proof {
            assert(all.take(0) =~= Seq::<Param>::empty());
        }
        while i < params.len()
            invariant
                i <= params@.len(),
                all == param_views(params@),
                offer_of(all.take(i as int)) == Ok::<DeflateOffer, &'static str>(offer),
            decreases params@.len() - i,
        {
            let (name, value) = params[i];
            proof {
                assert(all.take(i + 1).drop_last() =~= all.take(i as int));
                assert(all.take(i + 1).last() == all[i as int]);
            }
            match offer.add_param(name, value) {
                Ok(next) => offer = next,
                Err(e) => {
                    proof {
                        lemma_offer_error(all, i + 1);
                    }
                    return Err(e);
                },
            }
            i = i + 1;
        }
        proof {
            assert(all.take(i as int) =~= all);
        }
        Ok(offer)
    }

    fn add_param(self, name: &str, value: Option<&str>) -> (r: core::result::Result<
        Self,
        &'static str,
    >)
        ensures
            r == with_param(self, param_view((name, value))),
    {
        let mut offer = self;
        if strings::same(name, "server_no_context_takeover") {
            if offer.server_no_context_takeover {
                return Err("duplicate server_no_context_takeover");
            }
            if value.is_some() {
                return Err("server_no_context_takeover must not have a value");
            }
            offer.server_no_context_takeover = true;
        } else if strings::same(name, "client_no_context_takeover") {
            if offer.client_no_context_takeover {
                return Err("duplicate client_no_context_takeover");
            }
            if value.is_some() {
                return Err("client_no_context_takeover must not have a value");
            }
            offer.client_no_context_takeover = true;
        } else if strings::same(name, "server_max_window_bits") {
            if offer.server_max_window_bits.is_some() {
                return Err("duplicate server_max_window_bits");
            }
            match value {
                None => return Err("server_max_window_bits requires a value"),
                Some(v) => match parse_window_bits(v) {
                    None => return Err("invalid server_max_window_bits value"),
                    Some(bits) => offer.server_max_window_bits = Some(bits),
                },
            }
        } else if strings::same(name, "client_max_window_bits") {
            if offer.client_max_window_bits.is_some() {
                return Err("duplicate client_max_window_bits");
            }
            match value {
                None => offer.client_max_window_bits = Some(None),
                Some(v) => match parse_window_bits(v) {
                    None => return Err("invalid client_max_window_bits value"),
                    Some(bits) => offer.client_max_window_bits = Some(Some(bits)),
                },
            }
        } else {
            return Err("unknown permessage-deflate parameter");
        }
        Ok(offer)
    }
}

fn parse_window_bits(value: &str) -> (r: Option<u8>)
    ensures
        r == window_bits_of(value@),
{
    let chars = strings::chars_of(value);
    if chars.len() == 1 {
        assert(value@ =~= seq![value@[0]]);
        if chars[0] == '8' {
            Some(8)
        } else if chars[0] == '9' {
            Some(9)
        } else {
            assert(seq!['8'][0] != value@[0]);
            assert(seq!['9'][0] != value@[0]);
            None
        }
    } else if chars.len() == 2 && chars[0] == '1' {
        match chars[1] {
            '0' => Some(10),
            '1' => Some(11),
            '2' => Some(12),
            '3' => Some(13),
            '4' => Some(14),
            '5' => Some(15),
            _ => None,
        }
    } else {
        None
    }
}

fn unquote<'a>(v: &'a str) -> (r: Option<&'a str>)
    ensures
        match unquoted(v@) {
            Some(t) => r is Some && r->0@ == t,
            None => r is None,
        },
{
    let chars = strings::chars_of(v);
    let n = chars.len();
    if n > 0 && chars[0] == '"' && chars[n - 1] == '"' {
        if n >= 2 {
            Some(v.substring_char(1, n - 1))
        } else {
            None
        }
    } else {
        let mut i: usize = 0;
        while i < n
            invariant
                i <= n == chars@.len(),
                chars@ == v@,
                !(n > 0 && chars@[0] == '"' && chars@[n - 1] == '"'),
                forall|j: int| 0 <= j < i ==> chars@[j] != '"',
            decreases n - i,
        {
            if chars[i] == '"' {
                assert(v@.contains('"'));
                return None;
            }
            i = i + 1;
        }
        assert(!v@.contains('"'));
        Some(v)
    }
}

fn parse_param<'a>(part: &'a str) -> (r: Option<(&'a str, Option<&'a str>)>)
    ensures
        match param_of(part@) {
            Some(p) => r is Some && param_view(r->0) == p,
            None => r is None,
        },
{
    let p = strings::trim(part);
    if p.is_empty() {
        return None;
    }
    match strings::split_once(p, '=') {
        Some((name, value)) => {
            proof {
                strings::lemma_prefix_len(name@, '=', value@);
                assert(p@.take(name@.len() as int) =~= name@);
                assert(p@.skip(name@.len() as int + 1) =~= value@);
            }
            match unquote(strings::trim(value)) {
                Some(v) => Some((strings::trim(name), Some(v))),
                None => None,
            }
        },
        None => {
            proof {
                strings::lemma_prefix_len(p@, '=', seq![]);
            }
            Some((p, None))
        },
    }
}

/// The parameters of an offer, where the value of the header is an offer of
/// permessage-deflate.
pub fn parse_deflate_offer<'a>(value: &'a str) -> (r: Option<Vec<(&'a str, Option<&'a str>)>>)
    ensures
        match offer_params(value@) {
            Some(params) => r is Some && param_views(r->0@) == params,
            None => r is None,
        },
{
    let parts = strings::split_all(value, ';');
    let ghost all = strings::split_on(value@, ';');
    assert(parts@[0]@ == all[0]);
    if !strings::same(strings::trim(parts[0]), "permessage-deflate") {
        return None;
    }
    let mut params: Vec<(&'a str, Option<&'a str>)> = Vec::new();
    let mut i: usize = 1;
    while i < parts.len()
        invariant
            1 <= i <= parts@.len(),
            strings::views(parts@) == all,
            all == strings::split_on(value@, ';'),
            strings::trimmed(all[0]) == "permessage-deflate"@,
            params@.len() == i - 1,
            forall|j: int| 1 <= j < i ==> #[trigger] param_of(all[j]) is Some,
            forall|j: int| 0 <= j < i - 1 ==> param_view(#[trigger] params@[j]) == param_of(
                all[j + 1],
            )->0,
        decreases parts@.len() - i,
    {
        assert(parts@[i as int]@ == all[i as int]);
        match parse_param(parts[i]) {
            Some(param) => params.push(param),
            None => {
                assert(param_of(all[i as int]) is None);
                return None;
            },
        }
        i = i + 1;
    }
    assert(all.len() == parts@.len());
    assert(param_views(params@) =~= all.drop_first().map_values(|p: Seq<char>| param_of(p)->0));
    Some(params)
}

/// What a server has settled on: the configuration of the streams, and the
/// window limits that its response states.
#[verifier::ext_equal]
pub struct NegotiationView {
    /// The configuration of the streams
    pub config: DeflateConfig,
    /// The limit stated for the server's window
    pub server_limit: Option<u8>,
    /// The limit stated for the client's window
    pub client_limit: Option<u8>,
}

/// A server's answer to an offer of permessage-deflate.
///
/// The stated limits are kept beside the configuration: a limit of 15 and no
/// limit configure the streams alike, but are not the same answer.
#[derive(Debug, PartialEq, Eq)]
pub struct DeflateNegotiation {
    /// The configuration of the streams
    pub config: DeflateConfig,
    /// The limit that the response states for the server's window
    pub response_server_max_window_bits: Option<u8>,
    /// The limit that the response states for the client's window
    pub response_client_max_window_bits: Option<u8>,
}

impl View for DeflateNegotiation {
    type V = NegotiationView;

    open spec fn view(&self) -> NegotiationView {
        NegotiationView {
            config: self.config,
            server_limit: self.response_server_max_window_bits,
            client_limit: self.response_client_max_window_bits,
        }
    }
}

impl Clone for DeflateNegotiation {
    fn clone(&self) -> (r: Self)
        ensures
            r == *self,
    {
        DeflateNegotiation {
            config: self.config.clone(),
            response_server_max_window_bits: self.response_server_max_window_bits,
            response_client_max_window_bits: self.response_client_max_window_bits,
        }
    }
}

impl DeflateNegotiation {
    /// The value of the header that states this answer.
    pub fn to_response_header(&self) -> (r: String)
        ensures
            r@ == header_text(self@.config, self@.server_limit, self@.client_limit),
    {
        response_header(
            &self.config,
            self.response_server_max_window_bits,
            self.response_client_max_window_bits,
        )
    }
}

/// The lesser of two numbers of bits.
pub open spec fn lesser(a: u8, b: u8) -> u8 {
    if a <= b {
        a
    } else {
        b
    }
}

/// How a server with this policy answers an offer.
///
/// The server's window is the smaller of the policy's and the offer's; an
/// offer that allows the server fewer than nine bits is refused. The client's
/// window is limited only where the offer lets it be: without the parameter,
/// a policy that needs a limit refuses the offer. A client that uses eight bits
/// is decoded with nine.
pub open spec fn answer(offer: DeflateOffer, policy: DeflateConfig) -> Option<NegotiationView> {
    let server = match offer.server_max_window_bits {
        Some(limit) => if limit < 9 {
            None
        } else {
            let selected = lesser(bits_of(policy.server_max_window_bits), limit);
            Some((window_of(selected)->0, Some(selected)))
        },
        None => Some(
            (policy.server_max_window_bits, stated_limit(policy.server_max_window_bits)),
        ),
    };
    let client = match offer.client_max_window_bits {
        Some(Some(limit)) => {
            let selected = lesser(bits_of(policy.client_max_window_bits), limit);
            Some(
                (
                    if selected == 8 {
                        DeflateWindowBits::Bits9
                    } else {
                        window_of(selected)->0
                    },
                    if selected < 15 {
                        Some(selected)
                    } else {
                        None
                    },
                ),
            )
        },
        Some(None) => Some(
            (policy.client_max_window_bits, stated_limit(policy.client_max_window_bits)),
        ),
        None => if policy.client_max_window_bits == DeflateWindowBits::Bits15 {
            Some((DeflateWindowBits::Bits15, None))
        } else {
            None
        },
    };
    if server is None || client is None {
        None
    } else {
        Some(
            NegotiationView {
                config: DeflateConfig {
                    server_max_window_bits: (server->0).0,
                    client_max_window_bits: (client->0).0,
                    server_no_context_takeover: policy.server_no_context_takeover
                        || offer.server_no_context_takeover,
                    client_no_context_takeover: policy.client_no_context_takeover
                        || offer.client_no_context_takeover,
                    compression_level: policy.compression_level,
                    compression_threshold: policy.compression_threshold,
                },
                server_limit: (server->0).1,
                client_limit: (client->0).1,
            },
        )
    }
}

/// How a server with this policy answers one element of the header.
pub open spec fn answer_text(element: Seq<char>, policy: DeflateConfig) -> Option<
    NegotiationView,
> {
    match offer_params(strings::trimmed(element)) {
        Some(params) => match offer_of(params) {
            Ok(offer) => answer(offer, policy),
            Err(_) => None,
        },
        None => None,
    }
}

/// The answer to the first element that gets one.
pub open spec fn first_answer(elements: Seq<Seq<char>>, policy: DeflateConfig) -> Option<
    NegotiationView,
>
    decreases elements.len(),
{
    if elements.len() == 0 {
        None
    } else if answer_text(elements[0], policy) is Some {
        answer_text(elements[0], policy)
    } else {
        first_answer(elements.drop_first(), policy)
    }
}

/// How a server with this policy answers the value of an extension header.
pub open spec fn negotiated(offers: Seq<char>, policy: DeflateConfig) -> Option<NegotiationView> {
    first_answer(strings::split_on(offers, ','), policy)
}

proof fn lemma_offer_bits(params: Seq<Param>)
    ensures
        offer_of(params) matches Ok(offer) ==> offer_bits_valid(offer),
    decreases params.len(),
{
    if params.len() > 0 {
        lemma_offer_bits(params.drop_last());
    }
}

/// Whether the numbers of bits of an offer are from 8 to 15.
pub open spec fn offer_bits_valid(offer: DeflateOffer) -> bool {
    &&& offer.server_max_window_bits matches Some(bits) ==> 8 <= bits <= 15
    &&& offer.client_max_window_bits matches Some(Some(bits)) ==> 8 <= bits <= 15
}

impl DeflateOffer {
    fn answered(&self, policy: &DeflateConfig) -> (r: Option<DeflateNegotiation>)
        requires
            offer_bits_valid(*self),
        ensures
            match answer(*self, *policy) {
                Some(n) => r is Some && r->0@ == n,
                None => r is None,
            },
    {
        let policy_server: u8 = u8::from(policy.server_max_window_bits);
        let policy_client: u8 = u8::from(policy.client_max_window_bits);
        let (server, server_limit) = match self.server_max_window_bits {
            Some(limit) => {
                let selected: u8 = if policy_server <= limit {
                    policy_server
                } else {
                    limit
                };
                match DeflateWindowBits::try_from(selected) {
                    Ok(w) => (w, Some(selected)),
                    Err(_) => return None,
                }
            },
            None => (policy.server_max_window_bits, limit_to_state(policy.server_max_window_bits)),
        };
        let (client, client_limit) = match self.client_max_window_bits {
            Some(Some(limit)) => {
                let selected: u8 = if policy_client <= limit {
                    policy_client
                } else {
                    limit
                };
                let window = if selected == 8 {
                    MIN_WINDOW_BITS
                } else {
                    match DeflateWindowBits::try_from(selected) {
                        Ok(w) => w,
                        Err(_) => return None,
                    }
                };
                (
                    window,
                    if selected < 15 {
                        Some(selected)
                    } else {
                        None
                    },
                )
            },
            Some(None) => (
                policy.client_max_window_bits,
                limit_to_state(policy.client_max_window_bits),
            ),
            None => {
                if policy_client != 15 {
                    return None;
                }
                (MAX_WINDOW_BITS, None)
            },
        };
        Some(
            DeflateNegotiation {
                config: DeflateConfig {
                    server_max_window_bits: server,
                    client_max_window_bits: client,
                    server_no_context_takeover: policy.server_no_context_takeover
                        || self.server_no_context_takeover,
                    client_no_context_takeover: policy.client_no_context_takeover
                        || self.client_no_context_takeover,
                    compression_level: policy.compression_level,
                    compression_threshold: policy.compression_threshold,
                },
                response_server_max_window_bits: server_limit,
                response_client_max_window_bits: client_limit,
            },
        )
    }
}

/// Selects the first offer that satisfies the server's policy and the limits
/// of the compressor.
pub fn negotiate_server_deflate(offers: &str, policy: &DeflateConfig) -> (r: Option<
    DeflateNegotiation,
>)
    ensures
        match negotiated(offers@, *policy) {
            Some(n) => r is Some && r->0@ == n,
            None => r is None,
        },
{
    let elements = strings::split_all(offers, ',');
    let ghost all = strings::split_on(offers@, ',');
    let mut i: usize = 0;
    proof {
        assert(all.skip(0) =~= all);
    }
    while i < elements.len()
        invariant
            i <= elements@.len(),
            strings::views(elements@) == all,
            all == strings::split_on(offers@, ','),
            first_answer(all, *policy) == first_answer(all.skip(i as int), *policy),
        decreases elements@.len() - i,
    {
        assert(elements@[i as int]@ == all[i as int]);
        assert(all.skip(i as int)[0] == all[i as int]);
        assert(all.skip(i as int).drop_first() =~= all.skip(i + 1));
        if let Some(params) = parse_deflate_offer(strings::trim(elements[i])) {
            if let Ok(offer) = DeflateOffer::from_params(params.as_slice()) {
                proof {
                    lemma_offer_bits(param_views(params@));
                }
                if let Some(n) = offer.answered(policy) {
                    return Some(n);
                }
            }
        }
        i = i + 1;
    }
    None
}

} // verus!
