use sockudo_ws::io_uring::{
    has_recommended_kernel, is_available, kernel_version, BridgeStep, ReadBridge,
    RegisteredBuffer, RegisteredBufferPool, WriteBridge, IO_BUFFER_SIZE,
};

#[test]
fn test_buffer_pool() {
    let mut pool = RegisteredBufferPool::new(4, 1024);

    assert_eq!(pool.available(), 4);
    assert_eq!(pool.buffer_size(), 1024);

    let buf = pool.acquire().unwrap();
    assert_eq!(pool.available(), 3);

    pool.release(buf);
    assert_eq!(pool.available(), 4);
}

#[test]
fn test_registered_buffer() {
    let mut buf = RegisteredBuffer::new(0, 1024);

    assert_eq!(buf.capacity(), 1024);
    assert_eq!(buf.len(), 0);
    assert!(buf.is_empty());

    let written = buf.write(b"hello");
    assert_eq!(written, 5);
    assert_eq!(buf.len(), 5);
    assert!(!buf.is_empty());

    let mut out = [0u8; 10];
    let read = buf.read(&mut out);
    assert_eq!(read, 5);
    assert_eq!(&out[..5], b"hello");
    assert!(buf.is_empty());
}

#[test]
fn test_buffer_compact() {
    let mut buf = RegisteredBuffer::new(0, 1024);

    buf.write(b"hello world");
    buf.advance(6); // Skip "hello "

    assert_eq!(buf.as_slice(), b"world");

    buf.compact();

    assert_eq!(buf.pos(), 0);
    assert_eq!(buf.len(), 5);
    assert_eq!(buf.as_slice(), b"world");
}

#[test]
fn test_is_available() {
    assert!(is_available("linux"));
    assert!(!is_available("macos"));
}

#[test]
fn test_kernel_version() {
    let version = kernel_version("Linux version 6.8.0-45-generic (buildd@lcy02-amd64-012) (gcc)");
    assert!(
        version.is_some(),
        "Should be able to read kernel version on Linux"
    );

    let (major, minor, _patch) = version.unwrap();
    // Sanity check: kernel version should be reasonable
    assert!(major >= 4, "Kernel major version should be at least 4");
    assert!(minor < 100, "Kernel minor version should be reasonable");
}

#[test]
fn kernel_versions_are_read_and_judged() {
    assert_eq!(kernel_version("Linux version 5.10.3"), Some((5, 10, 3)));
    assert_eq!(kernel_version("Linux version 6.8.0-45"), Some((6, 8, 0)));
    assert_eq!(kernel_version("no number here"), None);
    assert_eq!(kernel_version(""), None);
    assert!(has_recommended_kernel(Some((5, 10, 0))));
    assert!(has_recommended_kernel(Some((6, 0, 0))));
    assert!(!has_recommended_kernel(Some((5, 9, 9))));
    assert!(!has_recommended_kernel(None));
}

#[test]
fn written_bytes_are_read_back_and_compacting_keeps_them() {
    let mut buf = RegisteredBuffer::new(3, 8);
    assert_eq!(buf.index(), 3);
    assert_eq!(buf.write(b"0123456789"), 8);
    assert_eq!(buf.spare_capacity(), 0);
    let mut out = [0u8; 3];
    assert_eq!(buf.read(&mut out), 3);
    assert_eq!(&out, b"012");
    assert_eq!(buf.remaining(), 5);
    buf.compact();
    assert_eq!(buf.write(b"abc"), 3);
    assert_eq!(buf.as_slice(), b"34567abc");
    buf.clear();
    assert!(buf.is_empty());
    buf.spare_capacity_mut()[0] = b'z';
    buf.add_len(1);
    assert_eq!(buf.as_slice(), b"z");
    buf.set_len(0);
    buf.as_mut_slice().fill(b'q');
    assert_eq!(buf.into_inner().len(), 8);
    let again = RegisteredBuffer::from_vec(1, vec![1, 2, 3], 2);
    assert_eq!(again.as_slice(), &[1, 2]);
}

#[test]
fn pool_reuses_buffers_up_to_its_maximum() {
    let mut pool = RegisteredBufferPool::new(1, 16);
    assert_eq!(pool.max_buffers(), 1);
    let mut first = pool.acquire().unwrap();
    assert!(pool.is_empty());
    assert!(pool.acquire().is_none());
    // All the buffers that the pool may have were made.
    assert!(pool.acquire_or_alloc().is_none());
    first.write(b"old");
    pool.release(first);
    assert_eq!(pool.available(), 1);
    // A released buffer comes back empty.
    assert!(pool.acquire_or_alloc().unwrap().is_empty());
}

#[test]
fn reads_pass_through_the_owned_buffer_in_order() {
    let mut bridge = ReadBridge::new();
    let mut out = [0u8; 4];
    assert!(bridge.is_idle());
    assert_eq!(bridge.fill(&mut out), BridgeStep::Read);
    let mut owned = bridge.take_buffer().unwrap();
    assert_eq!(owned.len(), IO_BUFFER_SIZE);
    assert!(!bridge.is_idle());
    owned[..6].copy_from_slice(b"abcdef");
    bridge.completed(owned, Some(6));
    assert!(bridge.has_buffered_data());
    assert_eq!(bridge.fill(&mut out), BridgeStep::Copied(4));
    assert_eq!(&out, b"abcd");
    assert_eq!(bridge.buffered_data(), b"ef");
    bridge.consume(1);
    assert_eq!(bridge.fill(&mut out), BridgeStep::Copied(1));
    assert_eq!(out[0], b'f');
    let owned = bridge.take_buffer().unwrap();
    bridge.completed(owned, Some(0));
    assert!(bridge.is_eof());
    assert_eq!(bridge.fill(&mut out), BridgeStep::Copied(0));
}

#[test]
fn writes_wait_until_the_owned_buffer_is_back() {
    let mut bridge = WriteBridge::new();
    assert!(!bridge.is_writing());
    assert_eq!(bridge.accept(b"hello"), 5);
    let waiting = bridge.take_waiting().unwrap();
    assert_eq!(waiting, b"hello");
    assert!(bridge.is_writing());
    assert!(bridge.take_waiting().is_none());
    bridge.completed(waiting);
    assert!(!bridge.is_writing());
    assert!(!bridge.is_full());
    assert_eq!(bridge.accept(&vec![0u8; IO_BUFFER_SIZE + 5]), IO_BUFFER_SIZE);
    assert!(bridge.is_full());
}
