//! Buffer pools of operating-system sockets.

use fast_socket_rs::{
    BufferAccessError, BufferLayout, BufferPool, OsBufferPool, OsPacketBuf, OsPacketBufMut,
    OwnedPacketBuffer, PacketBuffer, PacketBufferMut,
};

fn assert_send<T: Send>() {}

#[test]
fn os_packet_buffers_are_send() {
    assert_send::<OsPacketBufMut>();
    assert_send::<OsPacketBuf>();
}

#[test]
fn mutable_buffer_owner_thread_drop_recycles_storage() {
    let mut pool = OsBufferPool::with_max_buffers(BufferLayout::new(64), 1);
    let packet = pool.allocate().unwrap();

    assert!(pool.allocate().is_none());
    pool.recycle(packet);
    assert!(pool.allocate().is_some());
}

#[test]
fn mutable_buffer_cross_thread_drop_recycles_storage() {
    let mut pool = OsBufferPool::with_max_buffers(BufferLayout::new(64), 1);
    let mut packet = pool.allocate().unwrap();
    packet.extend_from_slice(b"abc").unwrap();

    assert!(pool.allocate().is_none());
    pool.recycle_remote(packet);
    assert!(pool.allocate().is_some());
}

#[test]
fn frozen_buffer_cross_thread_drop_recycles_storage() {
    let mut pool = OsBufferPool::with_max_buffers(BufferLayout::new(64), 1);
    let mut packet = pool.allocate().unwrap();
    packet.extend_from_slice(b"abc").unwrap();
    let packet = packet.freeze();

    assert!(pool.allocate().is_none());
    assert_eq!(packet.as_slice(), b"abc");
    pool.recycle_remote(packet.into_mut());
    assert!(pool.allocate().is_some());
}

#[test]
fn a_pool_never_lends_more_than_its_limit() {
    let mut pool = OsBufferPool::with_max_buffers(BufferLayout::new(16), 70);
    let mut out = Vec::new();
    while let Some(buffer) = pool.allocate() {
        out.push(buffer);
    }
    assert_eq!(out.len(), 70);
    pool.recycle(out.pop().unwrap());
    pool.recycle_remote(out.pop().unwrap());
    assert!(pool.allocate().is_some());
    assert!(pool.allocate().is_some());
    assert!(pool.allocate().is_none());
}

#[test]
fn recycled_buffers_come_back_empty() {
    let mut pool = OsBufferPool::with_max_buffers(BufferLayout::with_headroom_and_tailroom(16, 4, 2), 1);
    let mut packet = pool.allocate().unwrap();
    packet.extend_from_slice(b"0123").unwrap();
    packet.prepend(b"ab").unwrap();
    pool.recycle(packet);
    let packet = pool.allocate().unwrap();
    assert!(packet.is_empty());
    assert_eq!(packet.headroom(), 4);
    assert_eq!(packet.tailroom(), 18);
}

#[test]
fn a_received_length_covers_the_data_area() {
    let mut pool = OsBufferPool::new(BufferLayout::new(8));
    let mut packet = pool.allocate().unwrap();
    assert_eq!(packet.data_capacity(), 8);
    packet.data_mut()[..3].copy_from_slice(b"xyz");
    packet.set_received_len(3).unwrap();
    assert_eq!(packet.as_slice(), b"xyz");
    assert_eq!(
        packet.set_received_len(9),
        Err(BufferAccessError::InsufficientTailroom {
            available: 8,
            requested: 9,
        })
    );
}
