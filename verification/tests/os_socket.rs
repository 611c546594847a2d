//! The decisions of operating-system sockets, driven without system calls.

use fast_socket_rs::io::{IoError, IoErrorKind};
use fast_socket_rs::os_socket::{incoming_cpu, Datagram, OsConfigError, RecvStep, SendAction};
use fast_socket_rs::{
    BufferLayout, BufferPool, Error, IfIndex, IpAddr, Ipv4Addr, NonZeroU16, OsPacketBuf,
    OsUdpSocket, OsUdpSocketBuilder, PacketBuffer, PacketBufferMut, QueueAffinity, QueueId,
    RecvBatch, SocketAddr, SocketId, TxSlot, UdpTransmit,
};

fn localhost() -> Ipv4Addr {
    Ipv4Addr::new(127, 0, 0, 1)
}

fn builder() -> OsUdpSocketBuilder {
    OsUdpSocketBuilder::new(SocketAddr::v4(localhost(), 0))
}

fn open(builder: OsUdpSocketBuilder) -> OsUdpSocket {
    let (_addr, _reuse_port, config) = builder.into_parts();
    OsUdpSocket::from_std(config).unwrap()
}

fn tx_packet(socket: &mut OsUdpSocket, bytes: &[u8]) -> OsPacketBuf {
    let mut packet = socket.tx_pool_mut().allocate().unwrap();
    packet.extend_from_slice(bytes).unwrap();
    packet.freeze()
}

fn io_error(kind: IoErrorKind) -> IoError {
    IoError {
        kind,
        text: "failed".to_string(),
    }
}

#[test]
fn os_udp_socket_sends_and_receives_payload() {
    let mut receiver = open(
        builder()
            .buffer_layout(BufferLayout::with_headroom_and_tailroom(256, 0, 0))
            .mtu(256),
    );
    let mut sender = open(
        builder()
            .buffer_layout(BufferLayout::with_headroom_and_tailroom(256, 0, 0))
            .mtu(256),
    );
    let receive_addr = SocketAddr::v4(localhost(), 4000);
    let sender_addr = SocketAddr::v4(localhost(), 4001);

    let packet = tx_packet(&mut sender, b"hello from os");
    let mut wire = packet.as_slice().to_vec();
    let mut tx = [TxSlot::Ready(UdpTransmit::new(packet, receive_addr))];
    assert!(matches!(
        sender.plan_send(&tx, 0),
        SendAction::SendChunk { start: 0, len: 1 }
    ));
    assert!(matches!(
        sender.after_send_chunk(&mut tx, 0, 1, Ok(1)),
        SendAction::Finish(Ok(1))
    ));
    assert!(tx[0].is_taken());

    let mut rx = RecvBatch::with_capacity(4);
    assert_eq!(receiver.prepare_recv(4), 4);
    let area = receiver.receive_area_mut(0).unwrap();
    area[..wire.len()].copy_from_slice(&wire);
    let step = receiver.complete_recv(
        &mut rx,
        Ok(vec![Datagram {
            len: wire.len(),
            truncated: false,
            source: sender_addr,
            destination: Some(IpAddr::V4(localhost())),
        }]),
    );
    assert!(matches!(step, RecvStep::Finish(Ok(1))));

    assert_eq!(rx.len(), 1);
    let received = &rx.as_slice()[0];
    assert_eq!(received.packet.as_slice(), b"hello from os");
    assert_eq!(received.meta.source, sender_addr);
    match received.meta.destination {
        Some(IpAddr::V4(addr)) => assert_eq!(addr, localhost()),
        Some(other) => panic!("unexpected destination family: {other:?}"),
        None => {}
    }
    assert_eq!(received.meta.len, b"hello from os".len());
    wire.clear();
}

#[test]
fn os_udp_socket_rejects_oversize_transmit_without_consuming_slot() {
    let mut sender = open(
        builder()
            .buffer_layout(BufferLayout::with_headroom_and_tailroom(256, 0, 0))
            .mtu(4),
    );
    let destination = SocketAddr::v4(localhost(), 9);
    let packet = tx_packet(&mut sender, b"too large");
    let tx = [TxSlot::Ready(UdpTransmit::new(packet, destination))];

    let SendAction::Finish(Err(error)) = sender.plan_send(&tx, 0) else {
        panic!("oversize packet is rejected");
    };
    assert_eq!(error.accepted, 0);
    assert!(matches!(error.kind, Error::OversizeForMtu));
    assert!(tx[0].is_ready());
}

#[test]
fn os_udp_socket_rejects_unsupported_transmit_options() {
    let mut sender = open(
        builder()
            .buffer_layout(BufferLayout::with_headroom_and_tailroom(256, 0, 0))
            .mtu(256),
    );
    let destination = SocketAddr::v4(localhost(), 9);
    let packet = tx_packet(&mut sender, b"segmented");
    let mut transmit = UdpTransmit::new(packet, destination);
    transmit.gso_segment_size = NonZeroU16::new(4);
    let tx = [TxSlot::Ready(transmit)];

    let SendAction::Finish(Err(error)) = sender.plan_send(&tx, 0) else {
        panic!("unsupported metadata is rejected");
    };
    assert_eq!(error.accepted, 0);
    assert!(matches!(error.kind, Error::InvalidPacket));
    assert!(tx[0].is_ready());
}

#[test]
fn os_udp_socket_accepts_valid_prefix_before_rejecting_bad_slot() {
    let mut sender = open(
        builder()
            .buffer_layout(BufferLayout::with_headroom_and_tailroom(256, 0, 0))
            .mtu(4),
    );
    let destination = SocketAddr::v4(localhost(), 9);
    let first = tx_packet(&mut sender, b"ok");
    let second = tx_packet(&mut sender, b"too large");
    let mut tx = [
        TxSlot::Ready(UdpTransmit::new(first, destination)),
        TxSlot::Ready(UdpTransmit::new(second, destination)),
    ];

    let SendAction::SendChunk { start, len } = sender.plan_send(&tx, 0) else {
        panic!("the first packet is sent");
    };
    assert_eq!((start, len), (0, 1));
    let SendAction::Finish(Err(error)) = sender.after_send_chunk(&mut tx, start, len, Ok(1)) else {
        panic!("second packet is rejected");
    };
    assert_eq!(error.accepted, 1);
    assert!(matches!(error.kind, Error::OversizeForMtu));
    assert!(tx[0].is_taken());
    assert!(tx[1].is_ready());
}

#[test]
fn os_udp_socket_exposes_separate_receive_and_transmit_pools() {
    let mut socket = open(
        builder()
            .rx_buffer_layout(BufferLayout::with_headroom_and_tailroom(128, 4, 8))
            .tx_buffer_layout(BufferLayout::with_headroom_and_tailroom(512, 64, 16)),
    );

    assert_eq!(socket.rx_pool().layout().payload_capacity(), 128);
    assert_eq!(socket.rx_pool().layout().headroom(), 4);
    assert_eq!(socket.tx_pool().layout().payload_capacity(), 512);
    assert_eq!(socket.tx_pool().layout().headroom(), 64);

    let mut tx_buffer = socket.tx_pool_mut().allocate().unwrap();
    tx_buffer.extend_from_slice(b"tx").unwrap();
    assert_eq!(tx_buffer.headroom(), 64);
}

#[test]
fn os_udp_socket_reports_configured_identity() {
    let socket = open(builder().if_index(IfIndex::new(12)).queue_id(QueueId::new(3)));

    assert_eq!(socket.if_index(), Some(IfIndex::new(12)));
    assert_eq!(socket.socket_id(), SocketId::new(3));
}

#[test]
fn a_partly_taken_chunk_is_continued_with_one_slot() {
    let mut sender = open(builder());
    let destination = SocketAddr::v4(localhost(), 9);
    let mut tx: Vec<_> = (0..3)
        .map(|_| {
            let packet = tx_packet(&mut sender, b"x");
            TxSlot::Ready(UdpTransmit::new(packet, destination))
        })
        .collect();
    assert!(matches!(
        sender.after_send_chunk(&mut tx, 0, 3, Ok(1)),
        SendAction::SendOne { index: 1 }
    ));
    assert!(tx[0].is_taken());
    assert!(tx[1].is_ready());
    assert!(matches!(
        sender.after_send_one(&mut tx, 1, Ok(())),
        SendAction::SendChunk { start: 2, len: 1 }
    ));
    assert!(matches!(
        sender.after_send_chunk(&mut tx, 2, 1, Err(io_error(IoErrorKind::Interrupted))),
        SendAction::SendChunk { start: 2, len: 1 }
    ));
    assert!(matches!(
        sender.after_send_chunk(&mut tx, 2, 1, Err(io_error(IoErrorKind::WouldBlock))),
        SendAction::Finish(Ok(2))
    ));
    let SendAction::Finish(Err(error)) =
        sender.after_send_chunk(&mut tx, 2, 1, Err(io_error(IoErrorKind::HostUnreachable)))
    else {
        panic!("an unreachable host fails the send");
    };
    assert_eq!(error.accepted, 2);
    assert!(matches!(error.kind, Error::NoEgressRoute));
}

#[test]
fn chunks_stop_at_the_batch_size() {
    let mut sender = open(builder().max_batch(2));
    let destination = SocketAddr::v4(localhost(), 9);
    let tx: Vec<_> = (0..5)
        .map(|_| {
            let packet = tx_packet(&mut sender, b"x");
            TxSlot::Ready(UdpTransmit::new(packet, destination))
        })
        .collect();
    assert!(matches!(
        sender.plan_send(&tx, 0),
        SendAction::SendChunk { start: 0, len: 2 }
    ));
    assert!(matches!(
        sender.plan_send(&tx, 4),
        SendAction::SendChunk { start: 4, len: 1 }
    ));
    assert!(matches!(
        sender.plan_send(&tx, 5),
        SendAction::Finish(Ok(5))
    ));
}

#[test]
fn cut_off_datagrams_are_skipped() {
    let mut receiver = open(builder().buffer_layout(BufferLayout::new(8)));
    let mut rx = RecvBatch::with_capacity(4);
    assert_eq!(receiver.prepare_recv(2), 2);
    receiver.receive_area_mut(1).unwrap()[..2].copy_from_slice(b"ok");
    let source = SocketAddr::v4(localhost(), 1);
    let datagram = |len, truncated| Datagram {
        len,
        truncated,
        source,
        destination: None,
    };
    let step = receiver.complete_recv(&mut rx, Ok(vec![datagram(8, true), datagram(2, false)]));
    assert!(matches!(step, RecvStep::Finish(Ok(1))));
    assert_eq!(rx.as_slice()[0].packet.as_slice(), b"ok");

    let mut rx = RecvBatch::with_capacity(4);
    assert!(receiver.prepare_recv(1) == 1);
    let step = receiver.complete_recv(&mut rx, Ok(vec![datagram(8, true)]));
    assert!(matches!(step, RecvStep::Finish(Err(Error::Truncated))));
    assert!(rx.is_empty());
}

#[test]
fn receive_failures_are_interpreted() {
    let mut receiver = open(builder());
    let mut rx = RecvBatch::with_capacity(1);
    assert!(matches!(
        receiver.complete_recv(&mut rx, Err(io_error(IoErrorKind::Interrupted))),
        RecvStep::Retry
    ));
    assert!(matches!(
        receiver.complete_recv(&mut rx, Err(io_error(IoErrorKind::WouldBlock))),
        RecvStep::Finish(Ok(0))
    ));
    assert!(matches!(
        receiver.complete_recv(&mut rx, Err(io_error(IoErrorKind::Other))),
        RecvStep::Finish(Err(Error::Device(_)))
    ));
}

#[test]
fn impossible_configurations_are_refused() {
    let (_addr, _reuse_port, config) = builder().max_batch(0).into_parts();
    assert!(OsUdpSocket::from_std(config).is_err());
    assert_eq!(incoming_cpu(QueueAffinity::Any).unwrap(), None);
    assert_eq!(incoming_cpu(QueueAffinity::Core(7)).unwrap(), Some(7));
    assert!(incoming_cpu(QueueAffinity::Core(u32::MAX)).is_err());
    assert_eq!(
        OsConfigError::MaxBatch(5000).message(),
        "OsUdpSocketConfig::max_batch must be in 1..=4096, got 5000"
    );
    assert_eq!(
        OsConfigError::IncomingCpu(u32::MAX).message(),
        "SO_INCOMING_CPU value does not fit c_int"
    );
}

#[test]
fn an_overlong_datagram_gives_its_slot_up() {
    let mut receiver = open(
        builder()
            .buffer_layout(BufferLayout::with_headroom_and_tailroom(4, 0, 0))
            .max_batch(2),
    );
    let datagram = |len, truncated| Datagram {
        len,
        truncated,
        source: SocketAddr::v4(localhost(), 1),
        destination: None,
    };
    let mut rx = RecvBatch::with_capacity(2);
    assert_eq!(receiver.prepare_recv(2), 2);
    let step = receiver.complete_recv(&mut rx, Ok(vec![datagram(5, false), datagram(2, false)]));
    assert!(matches!(step, RecvStep::Finish(Err(Error::Truncated))));
    assert!(rx.is_empty());
    assert!(receiver.receive_area_mut(0).is_none());
    assert!(receiver.receive_area_mut(1).is_some());
    assert_eq!(receiver.prepare_recv(2), 2);
    assert!(receiver.receive_area_mut(0).is_some());
}
