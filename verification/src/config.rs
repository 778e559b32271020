//! Configuration of connections
use crate::deflate;
use crate::deflate::{DeflateConfig, DeflateWindowBits};
use crate::error::CloseReason;
use vstd::prelude::*;
use vstd::string::StringExecFns;

verus! {

/// Default cork buffer size (16KB)
pub const CORK_BUFFER_SIZE: usize = 16384;

/// HTTP/2 configuration (RFC 8441)
#[derive(Debug, Clone, Copy)]
pub struct Http2Config {
    /// Initial stream-level flow control window size (default: 1MB)
    pub initial_stream_window_size: u32,
    /// Initial connection-level flow control window size (default: 2MB)
    pub initial_connection_window_size: u32,
    /// Maximum concurrent streams per connection (default: 100)
    pub max_concurrent_streams: u32,
    /// Enable Extended CONNECT protocol for WebSocket (default: true)
    pub enable_connect_protocol: bool,
}

/// The default HTTP/2 configuration.
pub open spec fn default_http2() -> Http2Config {
    Http2Config {
        initial_stream_window_size: 0x10_0000,
        initial_connection_window_size: 0x20_0000,
        max_concurrent_streams: 100,
        enable_connect_protocol: true,
    }
}

impl Default for Http2Config {
    fn default() -> (r: Self)
        ensures
            r == default_http2(),
    {
        Http2Config {
            initial_stream_window_size: 1024 * 1024,
            initial_connection_window_size: 2 * 1024 * 1024,
            max_concurrent_streams: 100,
            enable_connect_protocol: true,
        }
    }
}

/// HTTP/3 configuration (RFC 9220)
#[derive(Debug, Clone, Copy)]
pub struct Http3Config {
    /// Maximum idle timeout for QUIC connection in milliseconds (default: 30000)
    pub max_idle_timeout_ms: u64,
    /// Initial stream-level flow control window size (default: 1MB)
    pub initial_stream_window_size: u64,
    /// Enable 0-RTT for faster reconnection (default: false)
    pub enable_0rtt: bool,
    /// Enable Extended CONNECT protocol for WebSocket (default: true)
    pub enable_connect_protocol: bool,
    /// Maximum UDP payload size (default: 1350)
    pub max_udp_payload_size: u16,
}

/// The default HTTP/3 configuration.
pub open spec fn default_http3() -> Http3Config {
    Http3Config {
        max_idle_timeout_ms: 30_000,
        initial_stream_window_size: 0x10_0000,
        enable_0rtt: false,
        enable_connect_protocol: true,
        max_udp_payload_size: 1350,
    }
}

impl Default for Http3Config {
    fn default() -> (r: Self)
        ensures
            r == default_http3(),
    {
        Http3Config {
            max_idle_timeout_ms: 30_000,
            initial_stream_window_size: 1024 * 1024,
            enable_0rtt: false,
            enable_connect_protocol: true,
            max_udp_payload_size: 1350,
        }
    }
}

/// io_uring configuration (Linux only)
#[derive(Debug, Clone, Copy)]
pub struct IoUringConfig {
    /// Number of registered buffers for zero-copy I/O (default: 64)
    pub registered_buffer_count: usize,
    /// Size of each registered buffer in bytes (default: 64KB)
    pub registered_buffer_size: usize,
    /// Enable SQPOLL mode for reduced syscalls (default: false)
    pub sqpoll: bool,
    /// Number of submission queue entries (default: 256)
    pub sq_entries: u32,
}

/// The default io_uring configuration.
pub open spec fn default_io_uring() -> IoUringConfig {
    IoUringConfig {
        registered_buffer_count: 64,
        registered_buffer_size: 0x1_0000,
        sqpoll: false,
        sq_entries: 256,
    }
}

impl Default for IoUringConfig {
    fn default() -> (r: Self)
        ensures
            r == default_io_uring(),
    {
        IoUringConfig {
            registered_buffer_count: 64,
            registered_buffer_size: 64 * 1024,
            sqpoll: false,
            sq_entries: 256,
        }
    }
}

/// Compression mode for WebSocket connections (RFC 7692 permessage-deflate)
///
/// Larger windows compress better and use more memory per connection. The
/// compressor supports windows of 9 to 15 bits.
#[derive(Debug, Clone, Copy, PartialEq, Eq, Structural)]
pub enum Compression {
    /// No compression
    Disabled,
    /// Dedicated compressor per connection (32KB window, best compression)
    Dedicated,
    /// Shared compressor pool (32KB window, good for many connections)
    Shared,
    /// Smallest window, minimal memory
    Window256B,
    /// 1KB sliding window
    Window1KB,
    /// 2KB sliding window
    Window2KB,
    /// 4KB sliding window
    Window4KB,
    /// 8KB sliding window
    Window8KB,
    /// 16KB sliding window
    Window16KB,
    /// 32KB sliding window (maximum per RFC 7692)
    Window32KB,
}

impl Default for Compression {
    fn default() -> (r: Self)
        ensures
            r == Compression::Disabled,
    {
        Compression::Disabled
    }
}

/// The window of a compression mode.
pub open spec fn mode_window(mode: Compression) -> Option<DeflateWindowBits> {
    match mode {
        Compression::Disabled => None,
        Compression::Window256B => Some(DeflateWindowBits::Bits9),
        Compression::Window1KB => Some(DeflateWindowBits::Bits10),
        Compression::Window2KB => Some(DeflateWindowBits::Bits11),
        Compression::Window4KB => Some(DeflateWindowBits::Bits12),
        Compression::Window8KB => Some(DeflateWindowBits::Bits13),
        Compression::Window16KB => Some(DeflateWindowBits::Bits14),
        Compression::Dedicated | Compression::Shared | Compression::Window32KB => Some(
            DeflateWindowBits::Bits15,
        ),
    }
}

/// The length from which a compression mode compresses messages.
pub open spec fn mode_threshold(mode: Compression) -> usize {
    match mode {
        Compression::Disabled => usize::MAX,
        Compression::Window256B => 128,
        Compression::Window1KB => 64,
        Compression::Window2KB => 48,
        Compression::Window4KB => 40,
        Compression::Window8KB => 32,
        Compression::Window16KB | Compression::Window32KB => 24,
        Compression::Dedicated | Compression::Shared => 16,
    }
}

/// Whether a compression mode keeps the window from one message to the next:
/// small windows do not, to save memory, and a shared compressor cannot.
pub open spec fn mode_takeover(mode: Compression) -> bool {
    match mode {
        Compression::Dedicated | Compression::Window4KB | Compression::Window8KB
        | Compression::Window16KB | Compression::Window32KB => true,
        _ => false,
    }
}

/// The compression level of a compression mode: fast for small windows.
pub open spec fn mode_level(mode: Compression) -> u32 {
    match mode {
        Compression::Window256B | Compression::Window1KB => 1,
        Compression::Window2KB | Compression::Window4KB => 3,
        Compression::Window8KB | Compression::Window16KB => 5,
        _ => 6,
    }
}

/// The configuration of the streams of a compression mode.
pub open spec fn mode_config(mode: Compression) -> Option<DeflateConfig> {
    match mode_window(mode) {
        None => None,
        Some(window) => Some(
            DeflateConfig {
                server_max_window_bits: window,
                client_max_window_bits: window,
                server_no_context_takeover: !mode_takeover(mode),
                client_no_context_takeover: !mode_takeover(mode),
                compression_level: mode_level(mode),
                compression_threshold: mode_threshold(mode),
            },
        ),
    }
}

impl Compression {
    /// Returns true if compression is enabled
    pub fn is_enabled(&self) -> (r: bool)
        ensures
            r == (*self != Compression::Disabled),
    {
        match self {
            Compression::Disabled => false,
            _ => true,
        }
    }

    /// Returns true if this mode uses shared compression
    pub fn is_shared(&self) -> (r: bool)
        ensures
            r == (*self == Compression::Shared),
    {
        match self {
            Compression::Shared => true,
            _ => false,
        }
    }

    /// Returns true if this mode uses dedicated per-connection compression
    pub fn is_dedicated(&self) -> (r: bool)
        ensures
            r == (*self != Compression::Disabled && *self != Compression::Shared),
    {
        match self {
            Compression::Disabled | Compression::Shared => false,
            _ => true,
        }
    }

    /// Get the window bits for this compression mode
    pub fn window_bits(&self) -> (r: Option<DeflateWindowBits>)
        ensures
            r == mode_window(*self),
    {
        match self {
            Compression::Disabled => None,
            Compression::Window256B => Some(DeflateWindowBits::Bits9),
            Compression::Window1KB => Some(DeflateWindowBits::Bits10),
            Compression::Window2KB => Some(DeflateWindowBits::Bits11),
            Compression::Window4KB => Some(DeflateWindowBits::Bits12),
            Compression::Window8KB => Some(DeflateWindowBits::Bits13),
            Compression::Window16KB => Some(DeflateWindowBits::Bits14),
            Compression::Dedicated | Compression::Shared | Compression::Window32KB => Some(
                DeflateWindowBits::Bits15,
            ),
        }
    }

    /// Get the compression threshold for this mode
    ///
    /// Messages smaller than this threshold won't be compressed.
    pub fn compression_threshold(&self) -> (r: usize)
        ensures
            r == mode_threshold(*self),
    {
        match self {
            Compression::Disabled => usize::MAX,
            Compression::Window256B => 128,
            Compression::Window1KB => 64,
            Compression::Window2KB => 48,
            Compression::Window4KB => 40,
            Compression::Window8KB => 32,
            Compression::Window16KB | Compression::Window32KB => 24,
            Compression::Dedicated | Compression::Shared => 16,
        }
    }

    /// Whether to preserve the compression window between messages
    pub fn context_takeover(&self) -> (r: bool)
        ensures
            r == mode_takeover(*self),
    {
        match self {
            Compression::Disabled | Compression::Shared | Compression::Window256B
            | Compression::Window1KB | Compression::Window2KB => false,
            _ => true,
        }
    }

    /// Convert to DeflateConfig
    pub fn to_deflate_config(&self) -> (r: Option<DeflateConfig>)
        ensures
            r == mode_config(*self),
    {
        let window = match self.window_bits() {
            None => {
                return None;
            },
            Some(window) => window,
        };
        let no_context_takeover = !self.context_takeover();
        Some(
            DeflateConfig {
                server_max_window_bits: window,
                client_max_window_bits: window,
                server_no_context_takeover: no_context_takeover,
                client_no_context_takeover: no_context_takeover,
                compression_level: match self {
                    Compression::Window256B | Compression::Window1KB => 1,
                    Compression::Window2KB | Compression::Window4KB => 3,
                    Compression::Window8KB | Compression::Window16KB => 5,
                    _ => 6,
                },
                compression_threshold: self.compression_threshold(),
            },
        )
    }
}

/// Configuration for WebSocket connections
#[derive(Debug)]
pub struct Config {
    /// Maximum message size (default: 64MB)
    pub max_message_size: usize,
    /// Maximum frame size (default: 16MB)
    pub max_frame_size: usize,
    /// Write buffer size for corking (default: 16KB)
    pub write_buffer_size: usize,
    /// Compression mode (default: Disabled)
    pub compression: Compression,
    /// Hard inbound-idle timeout in seconds (default: 120, 0 = disabled).
    ///
    /// Every valid inbound frame resets this independent deadline. When it
    /// ties a Pong deadline, the more specific Pong timeout wins.
    pub idle_timeout: u32,
    /// Maximum backpressure in bytes before dropping connection (default: 1MB)
    ///
    /// If an application frame makes the encoded write buffer exceed this limit,
    /// the connection becomes terminal and the write returns `Error::BufferFull`.
    /// This bounds queued encoded bytes, not peak encoding memory.
    pub max_backpressure: usize,
    /// Send native Pings after inbound inactivity (default: true).
    ///
    /// Disabling this does not disable mandatory automatic Pong or Close
    /// responses.
    pub auto_ping: bool,
    /// Inbound inactivity before a native Ping (default: 30, 0 = disabled).
    pub ping_interval: u32,
    /// Time to wait for the matching Pong after a native Ping is flushed
    /// (default: 10 seconds, 0 = no Pong deadline).
    pub pong_timeout: u32,
    /// Close code used when a native Pong deadline expires (default: 1001).
    pub pong_timeout_close_code: u16,
    /// Close reason used when a native Pong deadline expires.
    pub pong_timeout_close_reason: String,
    /// Maximum time spent flushing a timeout/handshake Close and shutting down
    /// the transport (default: 5 seconds, 0 = immediate best effort).
    pub close_timeout: u32,
    /// Coalesce outbound frames while inbound messages are still queued
    /// (default: true).
    pub write_coalescing: bool,
    /// Per-message deflate configuration
    pub deflate: Option<DeflateConfig>,
    /// HTTP/2 configuration
    pub http2: Http2Config,
    /// HTTP/3 configuration
    pub http3: Http3Config,
    /// io_uring configuration
    pub io_uring: IoUringConfig,
}

impl Clone for Config {
    fn clone(&self) -> (r: Self)
        ensures
            r == *self,
    {
        Config {
            max_message_size: self.max_message_size,
            max_frame_size: self.max_frame_size,
            write_buffer_size: self.write_buffer_size,
            compression: self.compression,
            idle_timeout: self.idle_timeout,
            max_backpressure: self.max_backpressure,
            auto_ping: self.auto_ping,
            ping_interval: self.ping_interval,
            pong_timeout: self.pong_timeout,
            pong_timeout_close_code: self.pong_timeout_close_code,
            pong_timeout_close_reason: self.pong_timeout_close_reason.clone(),
            close_timeout: self.close_timeout,
            write_coalescing: self.write_coalescing,
            deflate: match &self.deflate {
                Some(config) => Some(config.clone()),
                None => None,
            },
            http2: self.http2,
            http3: self.http3,
            io_uring: self.io_uring,
        }
    }
}

/// Whether a configuration is the default one.
pub open spec fn is_default(c: Config) -> bool {
    &&& c.pong_timeout_close_reason@ == "Pong reply not received in time"@
    &&& c == (Config {
        max_message_size: 0x400_0000,
        max_frame_size: 0x100_0000,
        write_buffer_size: CORK_BUFFER_SIZE,
        compression: Compression::Disabled,
        idle_timeout: 120,
        max_backpressure: 0x10_0000,
        auto_ping: true,
        ping_interval: 30,
        pong_timeout: 10,
        pong_timeout_close_code: 1001,
        pong_timeout_close_reason: c.pong_timeout_close_reason,
        close_timeout: 5,
        write_coalescing: true,
        deflate: None,
        http2: default_http2(),
        http3: default_http3(),
        io_uring: default_io_uring(),
    })
}

impl Default for Config {
    fn default() -> (r: Self)
        ensures
            is_default(r),
    {
        Config {
            max_message_size: 64 * 1024 * 1024,
            max_frame_size: 16 * 1024 * 1024,
            write_buffer_size: CORK_BUFFER_SIZE,
            compression: Compression::Disabled,
            idle_timeout: 120,
            max_backpressure: 1024 * 1024,
            auto_ping: true,
            ping_interval: 30,
            pong_timeout: 10,
            pong_timeout_close_code: CloseReason::GOING_AWAY,
            pong_timeout_close_reason: String::from_str("Pong reply not received in time"),
            close_timeout: 5,
            write_coalescing: true,
            deflate: None,
            http2: Http2Config::default(),
            http3: Http3Config::default(),
            io_uring: IoUringConfig::default(),
        }
    }
}

impl Config {
    /// Create a new config builder
    pub fn builder() -> (r: ConfigBuilder)
        ensures
            is_default(r@),
    {
        ConfigBuilder::new()
    }

    /// Small limits, a shared compressor, and correlated Ping/Pong detection in
    /// place of a hard inbound-idle deadline
    pub fn uws_defaults() -> (r: Self)
        ensures
            exists|d: Config| #[trigger]
                is_default(d) && r == (Config {
                    max_message_size: 0x4000,
                    max_frame_size: 0x4000,
                    compression: Compression::Shared,
                    idle_timeout: 0,
                    ..d
                }),
    {
        let mut config = Config::default();
        let ghost d = config;
        config.max_message_size = 16 * 1024;
        config.max_frame_size = 16 * 1024;
        config.compression = Compression::Shared;
        // A hard inbound-idle deadline shorter than the first Ping is surprising.
        config.idle_timeout = 0;
        assert(is_default(d));
        config
    }
}

/// Builder for WebSocket configuration
#[derive(Debug)]
pub struct ConfigBuilder {
    config: Config,
}

impl Clone for ConfigBuilder {
    fn clone(&self) -> (r: Self)
        ensures
            r@ == self@,
    {
        ConfigBuilder { config: self.config.clone() }
    }
}

impl ConfigBuilder {
    /// The configuration so far.
    pub closed spec fn view(&self) -> Config {
        self.config
    }

    /// Create a new builder with default values
    pub fn new() -> (r: Self)
        ensures
            is_default(r@),
    {
        ConfigBuilder { config: Config::default() }
    }
}

impl Default for ConfigBuilder {
    fn default() -> (r: Self)
        ensures
            is_default(r@),
    {
        ConfigBuilder::new()
    }
}

impl ConfigBuilder {
    /// Set compression mode
    pub fn compression(self, compression: Compression) -> (r: Self)
        ensures
            r@ == (Config { compression, ..self@ }),
    {
        let mut builder = self;
        builder.config.compression = compression;
        builder
    }

    /// Set maximum payload/message length
    pub fn max_payload_length(self, size: usize) -> (r: Self)
        ensures
            r@ == (Config { max_message_size: size, max_frame_size: size, ..self@ }),
    {
        let mut builder = self;
        builder.config.max_message_size = size;
        builder.config.max_frame_size = size;
        builder
    }

    /// Set maximum message size
    pub fn max_message_size(self, size: usize) -> (r: Self)
        ensures
            r@ == (Config { max_message_size: size, ..self@ }),
    {
        let mut builder = self;
        builder.config.max_message_size = size;
        builder
    }

    /// Set maximum frame size
    pub fn max_frame_size(self, size: usize) -> (r: Self)
        ensures
            r@ == (Config { max_frame_size: size, ..self@ }),
    {
        let mut builder = self;
        builder.config.max_frame_size = size;
        builder
    }

    /// Set idle timeout in seconds (0 to disable)
    pub fn idle_timeout(self, seconds: u32) -> (r: Self)
        ensures
            r@ == (Config { idle_timeout: seconds, ..self@ }),
    {
        let mut builder = self;
        builder.config.idle_timeout = seconds;
        builder
    }

    /// Set maximum backpressure before dropping connection
    pub fn max_backpressure(self, bytes: usize) -> (r: Self)
        ensures
            r@ == (Config { max_backpressure: bytes, ..self@ }),
    {
        let mut builder = self;
        builder.config.max_backpressure = bytes;
        builder
    }

    /// Set write buffer size for corking
    pub fn write_buffer_size(self, size: usize) -> (r: Self)
        ensures
            r@ == (Config { write_buffer_size: size, ..self@ }),
    {
        let mut builder = self;
        builder.config.write_buffer_size = size;
        builder
    }

    /// Enable or disable auto ping
    pub fn auto_ping(self, enabled: bool) -> (r: Self)
        ensures
            r@ == (Config { auto_ping: enabled, ..self@ }),
    {
        let mut builder = self;
        builder.config.auto_ping = enabled;
        builder
    }

    /// Set ping interval in seconds
    pub fn ping_interval(self, seconds: u32) -> (r: Self)
        ensures
            r@ == (Config { ping_interval: seconds, ..self@ }),
    {
        let mut builder = self;
        builder.config.ping_interval = seconds;
        builder
    }

    /// Set the matching Pong deadline in seconds.
    ///
    /// A value of 0 disables the deadline. The connection still keeps exactly
    /// one Ping outstanding until its matching Pong arrives.
    pub fn pong_timeout(self, seconds: u32) -> (r: Self)
        ensures
            r@ == (Config { pong_timeout: seconds, ..self@ }),
    {
        let mut builder = self;
        builder.config.pong_timeout = seconds;
        builder
    }

    /// Set the bounded Close flush/shutdown deadline in seconds.
    pub fn close_timeout(self, seconds: u32) -> (r: Self)
        ensures
            r@ == (Config { close_timeout: seconds, ..self@ }),
    {
        let mut builder = self;
        builder.config.close_timeout = seconds;
        builder
    }

    /// Enable or disable coalescing of outbound frames while inbound messages are
    /// still queued
    pub fn write_coalescing(self, enabled: bool) -> (r: Self)
        ensures
            r@ == (Config { write_coalescing: enabled, ..self@ }),
    {
        let mut builder = self;
        builder.config.write_coalescing = enabled;
        builder
    }

    /// Set per-message deflate configuration
    pub fn deflate_config(self, config: DeflateConfig) -> (r: Self)
        ensures
            r@ == (Config { deflate: Some(config), ..self@ }),
    {
        let mut builder = self;
        builder.config.deflate = Some(config);
        builder
    }

    /// Set the Close code and reason used when the Pong deadline expires.
    ///
    /// The reason is truncated to the control-frame limit when encoded.
    pub fn pong_timeout_close<T: Into<String>>(self, code: u16, reason: T) -> (r: Self)
        ensures
            call_ensures(<T as Into<String>>::into, (reason,), r@.pong_timeout_close_reason),
            r@ == (Config {
                pong_timeout_close_code: code,
                pong_timeout_close_reason: r@.pong_timeout_close_reason,
                ..self@
            }),
    {
        let mut builder = self;
        builder.config.pong_timeout_close_code = code;
        builder.config.pong_timeout_close_reason = reason.into();
        builder
    }

    /// Enable per-message deflate compression with default configuration
    pub fn enable_deflate(self) -> (r: Self)
        ensures
            r@ == (Config { deflate: Some(deflate::default_config()), ..self@ }),
    {
        let mut builder = self;
        builder.config.deflate = Some(DeflateConfig::default());
        builder
    }

    /// Set HTTP/2 initial stream window size
    pub fn http2_stream_window_size(self, size: u32) -> (r: Self)
        ensures
            r@ == (Config {
                http2: Http2Config { initial_stream_window_size: size, ..self@.http2 },
                ..self@
            }),
    {
        let mut builder = self;
        builder.config.http2.initial_stream_window_size = size;
        builder
    }

    /// Set HTTP/2 initial connection window size
    pub fn http2_connection_window_size(self, size: u32) -> (r: Self)
        ensures
            r@ == (Config {
                http2: Http2Config { initial_connection_window_size: size, ..self@.http2 },
                ..self@
            }),
    {
        let mut builder = self;
        builder.config.http2.initial_connection_window_size = size;
        builder
    }

    /// Set HTTP/2 maximum concurrent streams
    pub fn http2_max_streams(self, count: u32) -> (r: Self)
        ensures
            r@ == (Config {
                http2: Http2Config { max_concurrent_streams: count, ..self@.http2 },
                ..self@
            }),
    {
        let mut builder = self;
        builder.config.http2.max_concurrent_streams = count;
        builder
    }

    /// Enable or disable HTTP/2 Extended CONNECT protocol (RFC 8441)
    pub fn http2_enable_connect_protocol(self, enabled: bool) -> (r: Self)
        ensures
            r@ == (Config {
                http2: Http2Config { enable_connect_protocol: enabled, ..self@.http2 },
                ..self@
            }),
    {
        let mut builder = self;
        builder.config.http2.enable_connect_protocol = enabled;
        builder
    }

    /// Set HTTP/3 maximum idle timeout in milliseconds
    pub fn http3_idle_timeout(self, ms: u64) -> (r: Self)
        ensures
            r@ == (Config {
                http3: Http3Config { max_idle_timeout_ms: ms, ..self@.http3 },
                ..self@
            }),
    {
        let mut builder = self;
        builder.config.http3.max_idle_timeout_ms = ms;
        builder
    }

    /// Set HTTP/3 initial stream window size
    pub fn http3_stream_window_size(self, size: u64) -> (r: Self)
        ensures
            r@ == (Config {
                http3: Http3Config { initial_stream_window_size: size, ..self@.http3 },
                ..self@
            }),
    {
        let mut builder = self;
        builder.config.http3.initial_stream_window_size = size;
        builder
    }

    /// Enable or disable HTTP/3 0-RTT
    pub fn http3_enable_0rtt(self, enabled: bool) -> (r: Self)
        ensures
            r@ == (Config {
                http3: Http3Config { enable_0rtt: enabled, ..self@.http3 },
                ..self@
            }),
    {
        let mut builder = self;
        builder.config.http3.enable_0rtt = enabled;
        builder
    }

    /// Enable or disable HTTP/3 Extended CONNECT protocol (RFC 9220)
    pub fn http3_enable_connect_protocol(self, enabled: bool) -> (r: Self)
        ensures
            r@ == (Config {
                http3: Http3Config { enable_connect_protocol: enabled, ..self@.http3 },
                ..self@
            }),
    {
        let mut builder = self;
        builder.config.http3.enable_connect_protocol = enabled;
        builder
    }

    /// Set HTTP/3 maximum UDP payload size
    pub fn http3_max_udp_payload_size(self, size: u16) -> (r: Self)
        ensures
            r@ == (Config {
                http3: Http3Config { max_udp_payload_size: size, ..self@.http3 },
                ..self@
            }),
    {
        let mut builder = self;
        builder.config.http3.max_udp_payload_size = size;
        builder
    }

    /// Set io_uring registered buffer count and size
    pub fn io_uring_buffers(self, count: usize, size: usize) -> (r: Self)
        ensures
            r@ == (Config {
                io_uring: IoUringConfig { registered_buffer_count: count, registered_buffer_size: size, ..self@.io_uring },
                ..self@
            }),
    {
        let mut builder = self;
        builder.config.io_uring.registered_buffer_count = count;
        builder.config.io_uring.registered_buffer_size = size;
        builder
    }

    /// Enable or disable io_uring SQPOLL mode
    pub fn io_uring_sqpoll(self, enabled: bool) -> (r: Self)
        ensures
            r@ == (Config {
                io_uring: IoUringConfig { sqpoll: enabled, ..self@.io_uring },
                ..self@
            }),
    {
        let mut builder = self;
        builder.config.io_uring.sqpoll = enabled;
        builder
    }

    /// Set io_uring submission queue entries
    pub fn io_uring_sq_entries(self, entries: u32) -> (r: Self)
        ensures
            r@ == (Config {
                io_uring: IoUringConfig { sq_entries: entries, ..self@.io_uring },
                ..self@
            }),
    {
        let mut builder = self;
        builder.config.io_uring.sq_entries = entries;
        builder
    }

    /// Build the configuration
    pub fn build(self) -> (r: Config)
        ensures
            r == self@,
    {
        self.config
    }
}

} // verus!
