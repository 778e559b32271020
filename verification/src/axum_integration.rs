//! WebSocket upgrades of HTTP/1.1 requests under a web framework
//!
//! The framework's request is converted to [`UpgradeHead`] at the edge; whether
//! it is an upgrade, what is negotiated and how it is answered is settled here.
use crate::buffer;
use crate::compressed_protocol;
use crate::compressed_protocol::{CompressedReaderProtocol, CompressedWriterProtocol, PackedView};
use crate::config;
use crate::config::Config;
use crate::deflate;
use crate::deflate::{negotiate_server_deflate, DeflateConfig};
use crate::driver;
use crate::driver::WriterDriver;
use crate::extended_connect;
use crate::extended_connect::{get_header_string, BAD_REQUEST, METHOD_NOT_ALLOWED};
use crate::halves::{ReaderView, SplitReader, SplitShared};
use crate::handshake;
use crate::handshake::generate_accept_key;
use crate::protocol;
use crate::protocol::{CompressedProtocol, Protocol, ProtocolView, Role};
use crate::session;
use crate::session::Session;
use crate::strings;
use crate::strings::{lower_case_contains, same, split_all, trim};
use vstd::prelude::*;

verus! {

/// Status of an answer that upgrades the connection
pub const SWITCHING_PROTOCOLS: u16 = 101;

/// A request as the framework gives it.
#[derive(Debug)]
pub struct UpgradeHead {
    /// The method
    pub method: String,
    /// The header fields in order, with names in lower case
    pub headers: Vec<(String, Vec<u8>)>,
    /// Whether the framework can hand over the connection
    pub can_upgrade: bool,
}

/// Rejection type for WebSocket upgrade
#[derive(Debug, Clone, Copy, PartialEq, Eq, Structural)]
pub enum WebSocketUpgradeRejection {
    /// The method is not GET
    MethodNotGet,
    /// There is no `Upgrade` header that is text
    MissingUpgradeHeader,
    /// The `Upgrade` header does not name WebSocket
    InvalidUpgradeHeader,
    /// There is no `Connection` header that is text
    MissingConnectionHeader,
    /// The `Connection` header does not name an upgrade
    InvalidConnectionHeader,
    /// There is no `Sec-WebSocket-Key` header that is text
    MissingSecWebSocketKey,
    /// There is no `Sec-WebSocket-Version` header that is text
    MissingSecWebSocketVersion,
    /// The version is not 13
    UnsupportedVersion,
    /// The connection cannot be handed over
    MissingUpgrade,
}

/// The status with which a rejection is answered.
pub open spec fn rejection_status(r: WebSocketUpgradeRejection) -> u16 {
    if r is MethodNotGet {
        METHOD_NOT_ALLOWED
    } else {
        BAD_REQUEST
    }
}

/// The body with which a rejection is answered.
pub open spec fn rejection_text(r: WebSocketUpgradeRejection) -> Seq<char> {
    match r {
        WebSocketUpgradeRejection::MethodNotGet => "Method must be GET"@,
        WebSocketUpgradeRejection::MissingUpgradeHeader => "Missing Upgrade header"@,
        WebSocketUpgradeRejection::InvalidUpgradeHeader => "Invalid Upgrade header"@,
        WebSocketUpgradeRejection::MissingConnectionHeader => "Missing Connection header"@,
        WebSocketUpgradeRejection::InvalidConnectionHeader => "Invalid Connection header"@,
        WebSocketUpgradeRejection::MissingSecWebSocketKey => "Missing Sec-WebSocket-Key"@,
        WebSocketUpgradeRejection::MissingSecWebSocketVersion => "Missing Sec-WebSocket-Version"@,
        WebSocketUpgradeRejection::UnsupportedVersion => "Unsupported WebSocket version"@,
        WebSocketUpgradeRejection::MissingUpgrade => "Missing upgrade in request extensions"@,
    }
}

impl WebSocketUpgradeRejection {
    /// The status with which the rejection is answered
    pub fn status(&self) -> (r: u16)
        ensures
            r == rejection_status(*self),
    {
        match self {
            WebSocketUpgradeRejection::MethodNotGet => METHOD_NOT_ALLOWED,
            _ => BAD_REQUEST,
        }
    }

    /// The body with which the rejection is answered
    pub fn message(&self) -> (r: &'static str)
        ensures
            r@ == rejection_text(*self),
    {
        match self {
            WebSocketUpgradeRejection::MethodNotGet => "Method must be GET",
            WebSocketUpgradeRejection::MissingUpgradeHeader => "Missing Upgrade header",
            WebSocketUpgradeRejection::InvalidUpgradeHeader => "Invalid Upgrade header",
            WebSocketUpgradeRejection::MissingConnectionHeader => "Missing Connection header",
            WebSocketUpgradeRejection::InvalidConnectionHeader => "Invalid Connection header",
            WebSocketUpgradeRejection::MissingSecWebSocketKey => "Missing Sec-WebSocket-Key",
            WebSocketUpgradeRejection::MissingSecWebSocketVersion =>
                "Missing Sec-WebSocket-Version",
            WebSocketUpgradeRejection::UnsupportedVersion => "Unsupported WebSocket version",
            WebSocketUpgradeRejection::MissingUpgrade => "Missing upgrade in request extensions",
        }
    }
}

/// What an upgrade request asks for, as mathematical values.
#[verifier::ext_equal]
pub struct UpgradeView {
    /// The client's key
    pub key: Seq<char>,
    /// The first subprotocol that the client offers
    pub protocol: Option<Seq<char>>,
    /// The extensions that the client offers
    pub extensions: Option<Seq<char>>,
}

/// Why a request is no upgrade, if it is none.
pub open spec fn upgrade_rejection(
    method: Seq<char>,
    headers: Seq<(Seq<char>, Seq<u8>)>,
    can_upgrade: bool,
) -> Option<WebSocketUpgradeRejection> {
    let upgrade = extended_connect::field_text(headers, "upgrade"@);
    let connection = extended_connect::field_text(headers, "connection"@);
    let key = extended_connect::field_text(headers, "sec-websocket-key"@);
    let version = extended_connect::field_text(headers, "sec-websocket-version"@);
    if method != "GET"@ {
        Some(WebSocketUpgradeRejection::MethodNotGet)
    } else if upgrade is None {
        Some(WebSocketUpgradeRejection::MissingUpgradeHeader)
    } else if !strings::lowered_holds(upgrade->0, "websocket"@) {
        Some(WebSocketUpgradeRejection::InvalidUpgradeHeader)
    } else if connection is None {
        Some(WebSocketUpgradeRejection::MissingConnectionHeader)
    } else if !strings::lowered_holds(connection->0, "upgrade"@) {
        Some(WebSocketUpgradeRejection::InvalidConnectionHeader)
    } else if key is None {
        Some(WebSocketUpgradeRejection::MissingSecWebSocketKey)
    } else if version is None {
        Some(WebSocketUpgradeRejection::MissingSecWebSocketVersion)
    } else if version->0 != "13"@ {
        Some(WebSocketUpgradeRejection::UnsupportedVersion)
    } else if !can_upgrade {
        Some(WebSocketUpgradeRejection::MissingUpgrade)
    } else {
        None
    }
}

/// The first element of a list, without the space around it.
pub open spec fn first_element(value: Option<Seq<char>>) -> Option<Seq<char>> {
    match value {
        Some(v) => Some(strings::trimmed(strings::split_on(v, ',')[0])),
        None => None,
    }
}

/// What a request asks for that is an upgrade.
pub open spec fn upgrade_asked(headers: Seq<(Seq<char>, Seq<u8>)>) -> UpgradeView {
    UpgradeView {
        key: extended_connect::field_text(headers, "sec-websocket-key"@)->0,
        protocol: first_element(extended_connect::field_text(headers, "sec-websocket-protocol"@)),
        extensions: extended_connect::field_text(headers, "sec-websocket-extensions"@),
    }
}

/// The configuration of compression that a server offers: an explicit one, or
/// that of the compression mode.
pub open spec fn deflate_policy(c: Config) -> Option<DeflateConfig> {
    match c.deflate {
        Some(policy) => Some(policy),
        None => config::mode_config(c.compression),
    }
}

/// What is settled about compression.
pub open spec fn settled(extensions: Option<Seq<char>>, c: Config) -> Option<
    deflate::NegotiationView,
> {
    match (extensions, deflate_policy(c)) {
        (Some(offers), Some(policy)) => deflate::negotiated(offers, policy),
        _ => None,
    }
}

/// WebSocket upgrade of a request
#[derive(Debug)]
pub struct WebSocketUpgrade {
    key: String,
    protocol: Option<String>,
    extensions: Option<String>,
    config: Config,
}

impl WebSocketUpgrade {
    /// What the request asks for.
    pub closed spec fn view(&self) -> UpgradeView {
        UpgradeView {
            key: self.key@,
            protocol: handshake::string_of(self.protocol),
            extensions: handshake::string_of(self.extensions),
        }
    }

    /// The configuration of the connection.
    pub closed spec fn settings(&self) -> Config {
        self.config
    }

    /// Read an upgrade request
    pub fn from_request(head: &UpgradeHead) -> (r: core::result::Result<
        Self,
        WebSocketUpgradeRejection,
    >)
        ensures
            match upgrade_rejection(
                head.method@,
                extended_connect::raw_fields(head.headers@),
                head.can_upgrade,
            ) {
                Some(e) => r == Err::<Self, WebSocketUpgradeRejection>(e),
                None => {
                    &&& r is Ok
                    &&& r->Ok_0@ == upgrade_asked(extended_connect::raw_fields(head.headers@))
                    &&& config::is_default(r->Ok_0.settings())
                },
            },
    {
        // Check method
        if !same(head.method.as_str(), "GET") {
            return Err(WebSocketUpgradeRejection::MethodNotGet);
        }
        // Check Upgrade header

        let upgrade = match get_header_string(&head.headers, "upgrade") {
            Some(v) => v,
            None => {
                return Err(WebSocketUpgradeRejection::MissingUpgradeHeader);
            },
        };
        if !lower_case_contains(upgrade.as_str(), "websocket") {
            return Err(WebSocketUpgradeRejection::InvalidUpgradeHeader);
        }
        // Check Connection header

        let connection = match get_header_string(&head.headers, "connection") {
            Some(v) => v,
            None => {
                return Err(WebSocketUpgradeRejection::MissingConnectionHeader);
            },
        };
        if !lower_case_contains(connection.as_str(), "upgrade") {
            return Err(WebSocketUpgradeRejection::InvalidConnectionHeader);
        }
        // Check Sec-WebSocket-Key

        let key = match get_header_string(&head.headers, "sec-websocket-key") {
            Some(v) => v,
            None => {
                return Err(WebSocketUpgradeRejection::MissingSecWebSocketKey);
            },
        };
        // Check Sec-WebSocket-Version
        let version = match get_header_string(&head.headers, "sec-websocket-version") {
            Some(v) => v,
            None => {
                return Err(WebSocketUpgradeRejection::MissingSecWebSocketVersion);
            },
        };
        if !same(version.as_str(), "13") {
            return Err(WebSocketUpgradeRejection::UnsupportedVersion);
        }
        // Optional: Sec-WebSocket-Protocol

        let protocol = match get_header_string(&head.headers, "sec-websocket-protocol") {
            Some(v) => {
                let elements = split_all(v.as_str(), ',');
                assert(strings::views(elements@)[0] == elements@[0]@);
                Some(trim(elements[0]).to_owned())
            },
            None => None,
        };
        // Optional: Sec-WebSocket-Extensions
        let extensions = get_header_string(&head.headers, "sec-websocket-extensions");
        if !head.can_upgrade {
            return Err(WebSocketUpgradeRejection::MissingUpgrade);
        }
        Ok(WebSocketUpgrade { key, protocol, extensions, config: Config::default() })
    }

    /// Set a custom configuration
    pub fn config(self, config: Config) -> (r: Self)
        ensures
            r@ == self@,
            r.settings() == config,
    {
        WebSocketUpgrade { config, ..self }
    }

    /// Set the maximum message size
    pub fn max_message_size(self, size: usize) -> (r: Self)
        ensures
            r@ == self@,
            r.settings() == (Config { max_message_size: size, ..self.settings() }),
    {
        WebSocketUpgrade { config: Config { max_message_size: size, ..self.config }, ..self }
    }

    /// Set the maximum frame size
    pub fn max_frame_size(self, size: usize) -> (r: Self)
        ensures
            r@ == self@,
            r.settings() == (Config { max_frame_size: size, ..self.settings() }),
    {
        WebSocketUpgrade { config: Config { max_frame_size: size, ..self.config }, ..self }
    }

    /// Set the write buffer size
    pub fn write_buffer_size(self, size: usize) -> (r: Self)
        ensures
            r@ == self@,
            r.settings() == (Config { write_buffer_size: size, ..self.settings() }),
    {
        WebSocketUpgrade { config: Config { write_buffer_size: size, ..self.config }, ..self }
    }

    /// Answer the upgrade
    ///
    /// Only an offer of the client that is compatible with the configuration is
    /// accepted; the answer and the compression codec use the same parameters.
    pub fn on_upgrade(self) -> (r: WebSocketUpgradeResponse)
        ensures
            r.settings() == self.settings(),
            r.negotiated() == match settled(self@.extensions, self.settings()) {
                Some(n) => Some(n.config),
                None => None,
            },
            r.header_fields() == upgrade_headers(self@, self.settings()),
    {
        let accept_key = generate_accept_key(self.key.as_str());
        let policy = match &self.config.deflate {
            Some(policy) => Some(policy.clone()),
            None => self.config.compression.to_deflate_config(),
        };
        let answer = match (&self.extensions, &policy) {
            (Some(offers), Some(policy)) => negotiate_server_deflate(offers.as_str(), policy),
            _ => None,
        };
        let (extensions, deflate) = match answer {
            Some(n) => (Some(n.to_response_header()), Some(n.config)),
            None => (None, None),
        };
        WebSocketUpgradeResponse {
            accept_key,
            protocol: self.protocol,
            extensions,
            config: self.config,
            deflate,
        }
    }
}

/// The header fields of the answer to an upgrade.
pub open spec fn upgrade_headers(asked: UpgradeView, c: Config) -> Seq<(Seq<char>, Seq<char>)> {
    let extensions = match settled(asked.extensions, c) {
        Some(n) => Some(deflate::header_text(n.config, n.server_limit, n.client_limit)),
        None => None,
    };
    seq![
        ("upgrade"@, "websocket"@),
        ("connection"@, "Upgrade"@),
        ("sec-websocket-accept"@, handshake::accept_key(asked.key)),
    ] + extended_connect::optional_header("sec-websocket-protocol"@, asked.protocol)
        + extended_connect::optional_header("sec-websocket-extensions"@, extensions)
}

/// The answer that performs the WebSocket upgrade
#[derive(Debug)]
pub struct WebSocketUpgradeResponse {
    accept_key: String,
    protocol: Option<String>,
    extensions: Option<String>,
    config: Config,
    deflate: Option<DeflateConfig>,
}

impl WebSocketUpgradeResponse {
    /// The configuration of the connection.
    pub closed spec fn settings(&self) -> Config {
        self.config
    }

    /// The negotiated configuration of compression.
    pub closed spec fn negotiated(&self) -> Option<DeflateConfig> {
        self.deflate
    }

    /// The header fields of the answer.
    pub closed spec fn header_fields(&self) -> Seq<(Seq<char>, Seq<char>)> {
        seq![
            ("upgrade"@, "websocket"@),
            ("connection"@, "Upgrade"@),
            ("sec-websocket-accept"@, self.accept_key@),
        ] + extended_connect::optional_header(
            "sec-websocket-protocol"@,
            handshake::string_of(self.protocol),
        ) + extended_connect::optional_header(
            "sec-websocket-extensions"@,
            handshake::string_of(self.extensions),
        )
    }

    /// The header fields of the answer, whose status is 101
    pub fn headers(&self) -> (r: Vec<(String, String)>)
        ensures
            handshake::header_views(r@) == self.header_fields(),
    {
        let mut headers: Vec<(String, String)> = Vec::new();
        headers.push(("upgrade".to_owned(), "websocket".to_owned()));
        headers.push(("connection".to_owned(), "Upgrade".to_owned()));
        headers.push(("sec-websocket-accept".to_owned(), self.accept_key.as_str().to_owned()));
        if let Some(proto) = &self.protocol {
            headers.push(("sec-websocket-protocol".to_owned(), proto.as_str().to_owned()));
        }
        if let Some(ext) = &self.extensions {
            headers.push(("sec-websocket-extensions".to_owned(), ext.as_str().to_owned()));
        }
        assert(handshake::header_views(headers@) =~= self.header_fields());
        headers
    }

    /// Whether a connection can be opened: its write buffer can be allocated,
    /// and its compression level is one of zlib's.
    pub open spec fn opens(&self) -> bool {
        &&& buffer::allocatable(self.settings().write_buffer_size as nat)
        &&& self.negotiated() matches Some(c) ==> c.compression_level <= 9
    }

    /// Check if a connection can be opened
    pub fn can_open(&self) -> (r: bool)
        ensures
            r == self.opens(),
    {
        let level_fits = match &self.deflate {
            Some(c) => c.compression_level <= 9,
            None => true,
        };
        self.config.write_buffer_size <= isize::MAX as usize && level_fits
    }

    /// Open the upgraded connection, compressed where that was negotiated
    pub fn open(self) -> (r: WebSocket)
        requires
            self.opens(),
        ensures
            match self.negotiated() {
                Some(deflate) => r matches WebSocket::Compressed(s) && {
                    &&& s.wf()
                    &&& s@ == session::begun(s@.codec, self.settings(), Seq::empty())
                    &&& s@.codec@ == compressed_protocol::new_handler(
                        Role::Server,
                        self.settings().max_message_size as nat,
                        deflate,
                    )
                    &&& s@.codec.encoder() == compressed_protocol::own_encoder(
                        Role::Server,
                        deflate,
                    )
                    &&& s@.codec.receiver().frames().at_start()
                    &&& s@.codec.receiver().frames().limits() == (
                        self.settings().max_frame_size as nat,
                        true,
                        true,
                    )
                },
                None => r matches WebSocket::Plain(s) && {
                    &&& s.wf()
                    &&& s@ == session::begun(s@.codec, self.settings(), Seq::empty())
                    &&& s@.codec@ == protocol::new_view(
                        Role::Server,
                        self.settings().max_message_size as nat,
                    )
                    &&& s@.codec.frames().at_start()
                    &&& s@.codec.frames().limits() == (
                        self.settings().max_frame_size as nat,
                        true,
                        false,
                    )
                },
            },
    {
        match self.deflate {
            Some(deflate) => WebSocket::Compressed(
                Session::compressed(Role::Server, self.config, deflate, None),
            ),
            None => WebSocket::Plain(
                Session::from_raw_with_leftover(Role::Server, self.config, None),
            ),
        }
    }
}

/// WebSocket connection for request handlers
///
/// Messages are compressed where permessage-deflate was negotiated.
pub enum WebSocket {
    /// A connection without compression
    Plain(Session<Protocol>),
    /// A compressed connection
    Compressed(Session<CompressedProtocol>),
}

/// The read half of a split WebSocket connection
pub enum WebSocketReader {
    /// Of a connection without compression
    Plain(SplitReader<Protocol>),
    /// Of a compressed connection
    Compressed(SplitReader<CompressedReaderProtocol>),
}

/// The write half of a split WebSocket connection
pub enum WebSocketWriter {
    /// Of a connection without compression
    Plain(WriterDriver<Protocol>),
    /// Of a compressed connection
    Compressed(WriterDriver<CompressedWriterProtocol>),
}

impl WebSocket {
    /// The session's parts agree with each other.
    pub open spec fn wf(&self) -> bool {
        match self {
            WebSocket::Plain(s) => s.wf(),
            WebSocket::Compressed(s) => s.wf(),
        }
    }

    /// The configuration of the connection.
    pub open spec fn settings(&self) -> Config {
        match self {
            WebSocket::Plain(s) => s@.config,
            WebSocket::Compressed(s) => s@.config,
        }
    }

    /// Check if the connection is closed
    pub fn is_closed(&self) -> (r: bool)
        requires
            self.wf(),
        ensures
            r == match self {
                WebSocket::Plain(s) => s@.state is Closed,
                WebSocket::Compressed(s) => s@.state is Closed || s@.codec.state() is Closed,
            },
    {
        match self {
            WebSocket::Plain(s) => s.is_closed(),
            WebSocket::Compressed(s) => s.is_stream_closed(),
        }
    }

    /// Split the WebSocket into separate reader and writer halves, with what both
    /// know of the connection
    pub fn split(self) -> (r: (WebSocketReader, WebSocketWriter, SplitShared))
        requires
            self.wf(),
            buffer::allocatable(self.settings().write_buffer_size as nat),
        ensures
            match self {
                WebSocket::Plain(s) => {
                    &&& r.2 == session::shared_of(s@)
                    &&& r.0 matches WebSocketReader::Plain(reader) && {
                        &&& reader.wf()
                        &&& reader@ == (ReaderView {
                            codec: reader@.codec,
                            read: s@.read,
                            pending: s@.pending,
                            error: s@.error,
                            terminal_reported: false,
                        })
                        &&& reader@.codec@ == (ProtocolView {
                            max_message_size: s@.config.max_message_size as nat,
                            ..s@.codec@
                        })
                        &&& reader@.codec.frames() == s@.codec.frames()
                    }
                    &&& r.1 matches WebSocketWriter::Plain(writer) && {
                        &&& writer.wf()
                        &&& writer@ == driver::new_driver(writer@.encoder, s@.config)
                        &&& writer@.encoder@ == protocol::new_view(
                            s@.codec@.role,
                            s@.config.max_message_size as nat,
                        )
                        &&& writer@.encoder.frames().at_start()
                        &&& writer@.encoder.frames().limits() == (
                            s@.config.max_frame_size as nat,
                            s@.codec@.role is Server,
                            false,
                        )
                    }
                },
                WebSocket::Compressed(s) => {
                    &&& r.2 == session::shared_of(s@)
                    &&& r.0 matches WebSocketReader::Compressed(reader) && {
                        &&& reader.wf()
                        &&& reader@ == (ReaderView {
                            codec: reader@.codec,
                            read: s@.read,
                            pending: s@.pending,
                            error: s@.error,
                            terminal_reported: false,
                        })
                        &&& reader@.codec@ == (PackedView {
                            closing: None,
                            max_message_size: s@.config.max_message_size as nat,
                            ..s@.codec@
                        })
                        &&& reader@.codec.frames() == s@.codec.receiver().frames()
                    }
                    &&& r.1 matches WebSocketWriter::Compressed(writer) && {
                        &&& writer.wf()
                        &&& writer@ == driver::new_driver(writer@.encoder, s@.config)
                        &&& writer@.encoder.role() == s@.codec@.role
                        &&& writer@.encoder@ == s@.codec.encoder()
                    }
                },
            },
    {
        match self {
            WebSocket::Plain(s) => {
                let (reader, writer, shared) = s.split();
                (WebSocketReader::Plain(reader), WebSocketWriter::Plain(writer), shared)
            },
            WebSocket::Compressed(s) => {
                let (reader, writer, shared) = s.split();
                (WebSocketReader::Compressed(reader), WebSocketWriter::Compressed(writer), shared)
            },
        }
    }
}

impl WebSocketReader {
    /// Check if the connection is closed
    pub fn is_closed(&self, shared: &SplitShared) -> (r: bool)
        ensures
            r == match self {
                WebSocketReader::Plain(reader) => reader@.terminal_reported || (reader@.error is None
                    && !(shared.status is Open)),
                WebSocketReader::Compressed(reader) => reader@.terminal_reported || (
                reader@.error is None && !(shared.status is Open)),
            },
    {
        match self {
            WebSocketReader::Plain(reader) => reader.is_closed(shared),
            WebSocketReader::Compressed(reader) => reader.is_closed(shared),
        }
    }
}

impl WebSocketWriter {
    /// Check if the connection is closed
    pub fn is_closed(&self, shared: &SplitShared) -> (r: bool)
        ensures
            r == !(shared.status is Open),
    {
        !shared.is_open()
    }
}

/// A server states an extension in its answer exactly if the connection is
/// compressed, and only in answer to an offer of the client.
pub proof fn law_compression_needs_an_offer(asked: UpgradeView, c: Config)
    ensures
        asked.extensions is None || deflate_policy(c) is None ==> settled(asked.extensions, c)
            is None,
        settled(asked.extensions, c) is None ==> upgrade_headers(asked, c).len() == (
        if asked.protocol is Some {
            4int
        } else {
            3
        }),
        settled(asked.extensions, c) is Some ==> upgrade_headers(asked, c).last().0
            == "sec-websocket-extensions"@,
{
}

/// An explicit configuration of compression has priority over the mode.
pub proof fn law_explicit_compression_wins(asked: UpgradeView, c: Config, d: Config)
    requires
        c.deflate is Some,
        c.deflate == d.deflate,
    ensures
        settled(asked.extensions, c) == settled(asked.extensions, d),
        upgrade_headers(asked, c) == upgrade_headers(asked, d),
{
}

} // verus!
