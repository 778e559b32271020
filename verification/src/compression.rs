//! Compression management for WebSocket connections
//!
//! A connection compresses with a compressor of its own, with one of a pool
//! that connections share, or not at all.
use crate::buffer::BufferView;
use crate::config;
use crate::config::Compression;
use crate::deflate;
use crate::deflate::{DeflateConfig, DeflateContext, DeflateDecoder, DeflateEncoder};
use crate::deflate::DeflateWindowBits;
use crate::deflate_stream;
use crate::deflate_stream::{DecoderView, EncoderView};
use crate::error::{Error, Result};
use bytes::Bytes;
use vstd::prelude::*;

verus! {

/// Number of compressors in a shared pool
pub const SHARED_POOL_SIZE: usize = 4;

/// The state of a ring of encoders.
#[verifier::ext_equal]
pub struct RingView {
    /// The encoders.
    pub encoders: Seq<EncoderView>,
    /// How many messages were compressed, up to wrapping.
    pub next: nat,
}

impl RingView {
    /// The encoder whose turn it is.
    pub open spec fn turn(self) -> int {
        (self.next % 4) as int
    }
}

/// A new ring: four encoders that forget each message, because one message
/// and the next may belong to different connections.
pub open spec fn new_ring(config: DeflateConfig, window: DeflateWindowBits) -> RingView {
    let encoder = EncoderView {
        fed: seq![],
        made: seq![],
        window: deflate::bits_of(window) as nat,
        no_context_takeover: true,
        level: config.compression_level as nat,
        threshold: config.compression_threshold as nat,
    };
    RingView { encoders: seq![encoder, encoder, encoder, encoder], next: 0 }
}

/// Whether a ring in state `before` may deal with a message so: the encoder
/// whose turn it is compresses it, and the others are left alone.
pub open spec fn ring_compressed(
    before: RingView,
    data: Seq<u8>,
    after: RingView,
    r: core::result::Result<Option<Seq<u8>>, Error>,
) -> bool {
    &&& after.encoders.len() == before.encoders.len()
    &&& after.next == if before.next == usize::MAX {
        0
    } else {
        before.next + 1
    }
    &&& deflate_stream::compressed(
        before.encoders[before.turn()],
        data,
        after.encoders[before.turn()],
        r,
    )
    &&& forall|i: int|
        0 <= i < before.encoders.len() && i != before.turn() ==> after.encoders[i]
            == #[trigger] before.encoders[i]
}

struct EncoderRing {
    encoders: Vec<DeflateEncoder>,
    next: usize,
}

impl EncoderRing {
    spec fn view(&self) -> RingView {
        RingView {
            encoders: Seq::new(self.encoders@.len(), |i: int| self.encoders@[i]@),
            next: self.next as nat,
        }
    }

    spec fn wf(&self) -> bool {
        &&& self.encoders@.len() == 4
        &&& forall|i: int| 0 <= i < 4 ==> (#[trigger] self@.encoders[i]).no_context_takeover
    }

    fn new(config: &DeflateConfig, window: DeflateWindowBits) -> (r: Self)
        requires
            config.compression_level <= 9,
        ensures
            r.wf(),
            r@ == new_ring(*config, window),
    {
        let mut encoders: Vec<DeflateEncoder> = Vec::new();
        let mut i: usize = 0;
        while i < SHARED_POOL_SIZE
            invariant
                i <= 4,
                encoders@.len() == i,
                config.compression_level <= 9,
                forall|j: int|
                    0 <= j < i ==> (#[trigger] encoders@[j])@ == new_ring(
                        *config,
                        window,
                    ).encoders[0],
            decreases 4 - i,
        {
            encoders.push(
                DeflateEncoder::new(
                    window,
                    true,
                    config.compression_level,
                    config.compression_threshold,
                ),
            );
            i = i + 1;
        }
        let r = EncoderRing { encoders, next: 0 };
        assert(r@.encoders =~= new_ring(*config, window).encoders);
        r
    }

    fn compress(&mut self, data: &[u8]) -> (r: Result<Option<Bytes>>)
        requires
            old(self).wf(),
            data@.len() + 64 <= isize::MAX,
        ensures
            final(self).wf(),
            ring_compressed(old(self)@, data@, final(self)@, deflate_stream::packed(r)),
    {
        let index: usize = self.next % SHARED_POOL_SIZE;
        self.next = self.next.wrapping_add(1);
        let r = self.encoders[index].compress(data);
        proof {
            assert forall|i: int| 0 <= i < 4 implies (
            #[trigger] self@.encoders[i]).no_context_takeover by {
                assert(old(self)@.encoders[i].no_context_takeover);
            }
        }
        r
    }
}

/// The state of a shared pool.
#[verifier::ext_equal]
pub struct PoolView {
    /// The encoders of servers.
    pub server: RingView,
    /// The encoders of clients, where they are not those of servers.
    pub client: Option<RingView>,
    /// The configuration of the streams.
    pub config: DeflateConfig,
}

impl PoolView {
    /// The encoders of a role.
    pub open spec fn ring(self, is_server: bool) -> RingView {
        if is_server || self.client is None {
            self.server
        } else {
            self.client->0
        }
    }

    /// The pool with other encoders for a role.
    pub open spec fn with_ring(self, is_server: bool, ring: RingView) -> PoolView {
        if is_server || self.client is None {
            PoolView { server: ring, ..self }
        } else {
            PoolView { client: Some(ring), ..self }
        }
    }
}

/// A new pool. Both roles share encoders where their windows are alike.
pub open spec fn new_pool(config: DeflateConfig) -> PoolView {
    PoolView {
        server: new_ring(config, config.server_max_window_bits),
        client: if config.server_max_window_bits == config.client_max_window_bits {
            None
        } else {
            Some(new_ring(config, config.client_max_window_bits))
        },
        config,
    }
}

/// Encoders that connections share, four for each distinct window of the roles
///
/// Whoever shares a pool between threads puts it behind a lock.
pub struct SharedCompressorPool {
    server: EncoderRing,
    client: Option<EncoderRing>,
    config: DeflateConfig,
}

impl SharedCompressorPool {
    /// The state of the pool.
    pub closed spec fn view(&self) -> PoolView {
        PoolView {
            server: self.server@,
            client: match self.client {
                Some(ring) => Some(ring@),
                None => None,
            },
            config: self.config,
        }
    }

    /// There are four encoders in a ring, and each forgets what it has compressed.
    pub closed spec fn wf(&self) -> bool {
        &&& self.server.wf()
        &&& self.client matches Some(ring) ==> ring.wf()
    }

    /// Create a new shared compressor pool
    pub fn new(config: DeflateConfig) -> (r: Self)
        requires
            config.compression_level <= 9,
        ensures
            r.wf(),
            r@ == new_pool(config),
    {
        let server = EncoderRing::new(&config, config.server_max_window_bits);
        let client = if config.server_max_window_bits == config.client_max_window_bits {
            None
        } else {
            Some(EncoderRing::new(&config, config.client_max_window_bits))
        };
        SharedCompressorPool { server, client, config }
    }

    /// Compress data with an encoder for servers
    pub fn compress(&mut self, data: &[u8]) -> (r: Result<Option<Bytes>>)
        requires
            old(self).wf(),
            data@.len() + 64 <= isize::MAX,
        ensures
            final(self).wf(),
            final(self)@ == old(self)@.with_ring(true, final(self)@.ring(true)),
            ring_compressed(
                old(self)@.ring(true),
                data@,
                final(self)@.ring(true),
                deflate_stream::packed(r),
            ),
    {
        self.compress_for(true, data)
    }

    /// Compress data with an encoder for the sending role
    pub fn compress_for(&mut self, is_server: bool, data: &[u8]) -> (r: Result<Option<Bytes>>)
        requires
            old(self).wf(),
            data@.len() + 64 <= isize::MAX,
        ensures
            final(self).wf(),
            final(self)@ == old(self)@.with_ring(is_server, final(self)@.ring(is_server)),
            ring_compressed(
                old(self)@.ring(is_server),
                data@,
                final(self)@.ring(is_server),
                deflate_stream::packed(r),
            ),
    {
        if !is_server {
            if let Some(ring) = &mut self.client {
                return ring.compress(data);
            }
        }
        self.server.compress(data)
    }

    /// Get the pool's configuration
    pub fn config(&self) -> (r: &DeflateConfig)
        ensures
            *r == self@.config,
    {
        &self.config
    }
}

/// A connection's share in compression
pub enum CompressionContext {
    /// No compression
    Disabled,
    /// Dedicated per-connection compressor
    Dedicated(DeflateContext),
    /// Compressors of a pool, and a decompressor of its own
    Shared {
        /// Whether the connection sends as a server
        is_server: bool,
        /// Decompresses incoming messages
        decoder: DeflateDecoder,
        /// The configuration of the pool
        config: DeflateConfig,
    },
}

impl CompressionContext {
    /// Whether this is the share of a server in compression of this mode.
    pub open spec fn is_server_of(&self, mode: Compression) -> bool {
        match config::mode_config(mode) {
            None => *self is Disabled,
            Some(config) => if mode is Shared {
                self.shares(config, true)
            } else {
                self matches CompressionContext::Dedicated(ctx) && ctx.config == config
                    && ctx.encoder@ == deflate_stream::server_encoder(config) && ctx.decoder@
                    == deflate_stream::decoder_for(deflate_stream::client_encoder(config))
            },
        }
    }

    /// Whether this is the share of a client in compression of this mode.
    pub open spec fn is_client_of(&self, mode: Compression) -> bool {
        match config::mode_config(mode) {
            None => *self is Disabled,
            Some(config) => if mode is Shared {
                self.shares(config, false)
            } else {
                self matches CompressionContext::Dedicated(ctx) && ctx.config == config
                    && ctx.encoder@ == deflate_stream::client_encoder(config) && ctx.decoder@
                    == deflate_stream::decoder_for(deflate_stream::server_encoder(config))
            },
        }
    }

    /// Whether this is a new share in a pool of this configuration.
    pub open spec fn shares(&self, pool_config: DeflateConfig, server: bool) -> bool {
        self matches CompressionContext::Shared { is_server, decoder, config } && is_server
            == server && config == pool_config && decoder@ == deflate_stream::decoder_for(
            if server {
                deflate_stream::client_encoder(pool_config)
            } else {
                deflate_stream::server_encoder(pool_config)
            },
        )
    }

    /// Create a new compression context for the given mode (server role)
    pub fn server(mode: Compression) -> (r: Self)
        ensures
            r.is_server_of(mode),
    {
        match mode.to_deflate_config() {
            None => CompressionContext::Disabled,
            Some(config) => if mode.is_shared() {
                CompressionContext::share(config, true)
            } else {
                CompressionContext::Dedicated(DeflateContext::server(config))
            },
        }
    }

    /// Create a new compression context for the given mode (client role)
    pub fn client(mode: Compression) -> (r: Self)
        ensures
            r.is_client_of(mode),
    {
        match mode.to_deflate_config() {
            None => CompressionContext::Disabled,
            Some(config) => if mode.is_shared() {
                CompressionContext::share(config, false)
            } else {
                CompressionContext::Dedicated(DeflateContext::client(config))
            },
        }
    }

    /// Create a shared context for an existing pool
    pub fn with_shared_pool(pool: &SharedCompressorPool, is_server: bool) -> (r: Self)
        ensures
            r.shares(pool@.config, is_server),
    {
        CompressionContext::share(pool.config().clone(), is_server)
    }

    fn share(config: DeflateConfig, is_server: bool) -> (r: Self)
        ensures
            r.shares(config, is_server),
    {
        let decoder = if is_server {
            DeflateDecoder::new(config.client_max_window_bits, config.client_no_context_takeover)
        } else {
            DeflateDecoder::new(config.server_max_window_bits, config.server_no_context_takeover)
        };
        CompressionContext::Shared { is_server, decoder, config }
    }

    /// Check if compression is enabled
    pub fn is_enabled(&self) -> (r: bool)
        ensures
            r == !(*self is Disabled),
    {
        match self {
            CompressionContext::Disabled => false,
            _ => true,
        }
    }

    /// Compress a message payload
    ///
    /// A shared context takes an encoder of the pool, unless the message is
    /// below the threshold. Gives nothing where compression is disabled or would
    /// not reduce the size.
    pub fn compress(&mut self, data: &[u8], pool: &mut SharedCompressorPool) -> (r: Result<
        Option<Bytes>,
    >)
        requires
            old(pool).wf(),
            data@.len() + 64 <= isize::MAX,
        ensures
            final(pool).wf(),
            match *old(self) {
                CompressionContext::Disabled => {
                    &&& r == Ok::<Option<Bytes>, Error>(None)
                    &&& *final(self) is Disabled
                    &&& *final(pool) == *old(pool)
                },
                CompressionContext::Dedicated(ctx) => {
                    &&& *final(self) is Dedicated
                    &&& deflate_stream::compressed(
                        ctx.encoder@,
                        data@,
                        (final(self)->Dedicated_0).encoder@,
                        deflate_stream::packed(r),
                    )
                    &&& (final(self)->Dedicated_0).decoder@ == ctx.decoder@
                    &&& (final(self)->Dedicated_0).config == ctx.config
                    &&& *final(pool) == *old(pool)
                },
                CompressionContext::Shared { is_server, config, .. } => {
                    &&& *final(self) == *old(self)
                    &&& if data@.len() < config.compression_threshold {
                        &&& r == Ok::<Option<Bytes>, Error>(None)
                        &&& *final(pool) == *old(pool)
                    } else {
                        &&& final(pool)@ == old(pool)@.with_ring(
                            is_server,
                            final(pool)@.ring(is_server),
                        )
                        &&& ring_compressed(
                            old(pool)@.ring(is_server),
                            data@,
                            final(pool)@.ring(is_server),
                            deflate_stream::packed(r),
                        )
                    }
                },
            },
    {
        match self {
            CompressionContext::Disabled => Ok(None),
            CompressionContext::Dedicated(ctx) => ctx.compress(data),
            CompressionContext::Shared { is_server, config, .. } => {
                // Check threshold before taking an encoder
                if data.len() < config.compression_threshold {
                    return Ok(None);
                }
                pool.compress_for(*is_server, data)
            },
        }
    }

    /// Decompress a message payload
    ///
    /// Without compression the payload is the message.
    pub fn decompress(&mut self, data: &[u8], max_size: usize) -> (r: Result<Bytes>)
        requires
            4 * data@.len() <= isize::MAX,
            data@.len() + 4 <= isize::MAX,
        ensures
            match *old(self) {
                CompressionContext::Disabled => {
                    &&& *final(self) is Disabled
                    &&& r is Ok
                    &&& r->Ok_0@ == data@
                },
                CompressionContext::Dedicated(ctx) => {
                    &&& *final(self) is Dedicated
                    &&& deflate_stream::decompressed(
                        ctx.decoder@,
                        data@,
                        max_size as nat,
                        (final(self)->Dedicated_0).decoder@,
                        deflate_stream::unpacked(r),
                    )
                    &&& (final(self)->Dedicated_0).encoder@ == ctx.encoder@
                    &&& (final(self)->Dedicated_0).config == ctx.config
                },
                CompressionContext::Shared { is_server, decoder, config } => {
                    &&& *final(self) is Shared
                    &&& final(self)->is_server == is_server
                    &&& final(self)->config == config
                    &&& deflate_stream::decompressed(
                        decoder@,
                        data@,
                        max_size as nat,
                        (final(self)->decoder)@,
                        deflate_stream::unpacked(r),
                    )
                },
            },
    {
        match self {
            CompressionContext::Disabled => Ok(Bytes::copy_from_slice(data)),
            CompressionContext::Dedicated(ctx) => ctx.decompress(data, max_size),
            CompressionContext::Shared { decoder, .. } => decoder.decompress(data, max_size),
        }
    }

    /// Get the DeflateConfig for this context
    pub fn config(&self) -> (r: Option<&DeflateConfig>)
        ensures
            match *self {
                CompressionContext::Disabled => r is None,
                CompressionContext::Dedicated(ctx) => r == Some(&ctx.config),
                CompressionContext::Shared { config, .. } => r == Some(&config),
            },
    {
        match self {
            CompressionContext::Disabled => None,
            CompressionContext::Dedicated(ctx) => Some(&ctx.config),
            CompressionContext::Shared { config, .. } => Some(config),
        }
    }
}

/// What an encoder of a pool sends can be read by every peer that starts each
/// message with an empty history: whatever the encoder has compressed before,
/// for whomever, does not matter.
pub proof fn law_pooled_messages_stand_alone(encoder: EncoderView, decoder: DecoderView)
    requires
        encoder.no_context_takeover,
        encoder.window <= 15,
        decoder.no_context_takeover,
    ensures
        deflate_stream::in_step(encoder, decoder),
{
    deflate_stream::lemma_fresh_in_step(encoder, decoder);
}

} // verus!
