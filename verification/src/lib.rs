//! Verified WebSocket library
//!
//! Frames, messages, compression, handshakes and the life of a connection, as
//! functions and state machines that do no I/O: the caller reads, writes and
//! keeps time, and the library decides.
use vstd::prelude::*;

pub mod axum_integration;
pub mod bench;
pub mod buffer;
pub mod client;
pub mod codec;
pub mod compressed_laws;
pub mod compressed_protocol;
pub mod compression;
pub mod config;
pub mod connect_laws;
pub mod deflate;
pub mod deflate_laws;
pub mod deflate_stream;
pub mod driver;
pub mod error;
pub mod error_laws;
pub mod extended_connect;
pub mod frame;
pub mod framing;
pub mod grammar;
pub mod grammar_laws;
pub mod halves;
pub mod handler_laws;
pub mod handshake;
pub mod handshake_laws;
pub mod heartbeat;
pub mod heartbeat_laws;
pub mod http2;
pub mod http3;
pub mod io_uring;
pub mod laws;
pub mod mask;
pub mod octets;
pub mod protocol;
pub mod protocol_laws;
pub mod refusal_laws;
pub mod request_laws;
pub mod session;
pub mod session_laws;
pub mod simd;
pub mod split_laws;
pub mod strings;
pub mod text;
pub mod text_laws;
pub mod transport_laws;
pub mod url_laws;
pub mod utf8;
pub mod view_laws;
pub mod wire_laws;

pub use crate::client::{Http1, Http2, Http3, WebSocketClient};
pub use crate::compression::{CompressionContext, SharedCompressorPool};
pub use crate::config::{
    Compression, Config, ConfigBuilder, Http2Config, Http3Config, IoUringConfig, CORK_BUFFER_SIZE,
};
pub use crate::deflate::{DeflateConfig, DeflateContext, DeflateWindowBits};
pub use crate::driver::WriterDriver;
pub use crate::error::{Error, Result};
pub use crate::extended_connect::{
    build_extended_connect_error, build_extended_connect_response, ExtendedConnectConfig,
    ExtendedConnectRequest, ExtendedConnectResponse,
};
pub use crate::frame::{Frame, OpCode};
pub use crate::halves::SplitReader;
pub use crate::handshake::HandshakeResult;
pub use crate::protocol::{CompressedProtocol, Message, RawMessage, Role};
pub use crate::session::Session;

verus! {

/// Cache line size for modern CPUs
pub const CACHE_LINE_SIZE: usize = 64;

/// Default receive buffer size (64KB for high throughput)
pub const RECV_BUFFER_SIZE: usize = 65536;

/// WebSocket GUID for handshake
pub const WS_GUID: &'static str = "258EAFA5-E914-47DA-95CA-C5AB0DC85B11";

/// Maximum WebSocket frame header size
pub const MAX_FRAME_HEADER_SIZE: usize = 14;

/// Largest payload whose length fits in the second header byte
pub const SMALL_MESSAGE_THRESHOLD: usize = 125;

/// Largest payload whose length fits in a 16-bit length field
pub const MEDIUM_MESSAGE_THRESHOLD: usize = 65535;

} // verus!
