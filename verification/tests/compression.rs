use sockudo_ws::compression::SHARED_POOL_SIZE;
use sockudo_ws::{
    Compression, CompressionContext, DeflateConfig, DeflateWindowBits, SharedCompressorPool,
};

fn shared_pool() -> SharedCompressorPool {
    SharedCompressorPool::new(Compression::Shared.to_deflate_config().unwrap())
}

#[test]
fn test_compression_context_disabled() {
    let mut ctx = CompressionContext::server(Compression::Disabled);
    assert!(!ctx.is_enabled());

    let result = ctx.compress(b"Hello, World!", &mut shared_pool()).unwrap();
    assert!(result.is_none());
}

#[test]
fn test_compression_context_dedicated() {
    let mut ctx = CompressionContext::server(Compression::Dedicated);
    assert!(ctx.is_enabled());

    // Large enough to compress
    let data = b"Hello, World! This is a test message that should be compressed. ".repeat(10);
    let compressed = ctx.compress(&data, &mut shared_pool()).unwrap();
    assert!(compressed.is_some());

    let compressed = compressed.unwrap();
    assert!(compressed.len() < data.len());

    // Decompress
    let decompressed = ctx.decompress(&compressed, 1024 * 1024).unwrap();
    assert_eq!(decompressed.as_ref(), data.as_slice());
}

#[test]
fn test_shared_pool() {
    let config = Compression::Shared.to_deflate_config().unwrap();
    let mut pool = SharedCompressorPool::new(config);

    // Large enough to compress
    let data = b"Hello, World! This is a test message that should be compressed. ".repeat(10);

    let compressed1 = pool.compress(&data).unwrap();
    let compressed2 = pool.compress(&data).unwrap();

    assert!(compressed1.is_some());
    assert!(compressed2.is_some());

    // Both should compress to similar sizes
    let c1 = compressed1.unwrap();
    let c2 = compressed2.unwrap();
    assert!(c1.len() < data.len());
    assert!(c2.len() < data.len());
}

#[test]
fn test_compression_modes_configs() {
    // Test all modes produce valid configs
    for mode in [
        Compression::Disabled,
        Compression::Dedicated,
        Compression::Shared,
        Compression::Window1KB,
        Compression::Window2KB,
        Compression::Window4KB,
        Compression::Window8KB,
        Compression::Window16KB,
        Compression::Window32KB,
    ] {
        if mode == Compression::Disabled {
            assert!(mode.to_deflate_config().is_none());
        } else {
            let config = mode.to_deflate_config();
            assert!(config.is_some(), "Mode {:?} should have config", mode);
        }
    }
}

#[test]
fn test_window_sizes() {
    assert_eq!(Compression::Disabled.window_bits(), None);
    assert_eq!(
        Compression::Window1KB.window_bits(),
        Some(DeflateWindowBits::Bits10)
    );
    assert_eq!(
        Compression::Window2KB.window_bits(),
        Some(DeflateWindowBits::Bits11)
    );
    assert_eq!(
        Compression::Window4KB.window_bits(),
        Some(DeflateWindowBits::Bits12)
    );
    assert_eq!(
        Compression::Window8KB.window_bits(),
        Some(DeflateWindowBits::Bits13)
    );
    assert_eq!(
        Compression::Window16KB.window_bits(),
        Some(DeflateWindowBits::Bits14)
    );
    assert_eq!(
        Compression::Window32KB.window_bits(),
        Some(DeflateWindowBits::Bits15)
    );
    assert_eq!(
        Compression::Dedicated.window_bits(),
        Some(DeflateWindowBits::Bits15)
    );
    assert_eq!(
        Compression::Shared.window_bits(),
        Some(DeflateWindowBits::Bits15)
    );
}

#[test]
fn shared_context_compresses_in_the_pool() {
    let mut pool = shared_pool();
    let mut server = CompressionContext::server(Compression::Shared);
    let mut client = CompressionContext::client(Compression::Shared);
    assert!(server.is_enabled());

    // Every encoder of the pool is used, and each message stands alone.
    let data = b"a message that shall be compressed, again and again and again. ".repeat(8);
    for _ in 0..SHARED_POOL_SIZE + 1 {
        let packed = server.compress(&data, &mut pool).unwrap().unwrap();
        assert_eq!(
            client.decompress(&packed, 1 << 20).unwrap().as_ref(),
            data.as_slice()
        );
        let packed = client.compress(&data, &mut pool).unwrap().unwrap();
        assert_eq!(
            server.decompress(&packed, 1 << 20).unwrap().as_ref(),
            data.as_slice()
        );
    }
}

#[test]
fn context_of_a_given_pool_takes_its_configuration() {
    let config = DeflateConfig {
        compression_threshold: 7,
        ..Default::default()
    };
    let mut pool = SharedCompressorPool::new(config);
    assert_eq!(pool.config().compression_threshold, 7);
    let mut ctx = CompressionContext::with_shared_pool(&pool, true);
    assert_eq!(ctx.config().unwrap().compression_threshold, 7);
    assert!(ctx.compress(b"sixsix", &mut pool).unwrap().is_none());
    assert!(pool.compress_for(false, &[b'x'; 100]).unwrap().is_some());
}

#[test]
fn disabled_context_hands_input_on() {
    let mut ctx = CompressionContext::client(Compression::Disabled);
    assert!(ctx.config().is_none());
    assert_eq!(ctx.decompress(b"data", 100).unwrap().as_ref(), b"data");
}

#[test]
fn modes_have_thresholds_and_takeover() {
    assert!(!Compression::Disabled.is_enabled());
    assert!(Compression::Shared.is_shared());
    assert!(Compression::Dedicated.is_dedicated());
    assert!(Compression::Dedicated.context_takeover());
    assert_eq!(
        Compression::Window256B.window_bits(),
        Some(DeflateWindowBits::Bits9)
    );
}
