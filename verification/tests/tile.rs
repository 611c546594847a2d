//! Tile types, classifiers and worker affinity.

use std::collections::VecDeque;

use fast_socket_rs::{
    prepare_generic_udp_endpoint, send_generic_udp_endpoint, BufferPool, BusyPollDriver, Error,
    GenericUdpEndpoint, HeapBufferPool, Ipv4Addr, PacketBuf, PacketBufMut, PacketBufferMut,
    QueueAffinity, RecvBatch, SendError, SocketAddr, SocketId, TxSlot, UdpEndpointInfo,
    UdpEndpointSpec, UdpEndpointTransmit, UdpReceive, UdpRecvMeta, UdpSocket, UdpTransmit,
    UdpTxBufferMut,
};
use fast_socket_rs::{
    validate_socket_affinity, AcceptAllClassifier, IngressClassifier, IngressDecision, SocketIndex,
    SourceAddrClassifier, TileAffinity, TileConfig, TileError, TileRxBatch, TileRxPacket, TileStats,
    TileTxBatch, TileTxBuffer, TileTxMeta,
};
use fast_socket_rs::affinity::PinError;
use fast_socket_rs::io::{IoError, IoErrorKind};
use fast_socket_rs::tile_queue::{TileRxQueue, TileTxQueue};
use fast_socket_rs::queue::Queue;
use fast_socket_rs::{IpAddr, Ipv6Addr};

/// A socket that keeps what it sends and delivers what it was given.
struct TestSocket {
    affinity: QueueAffinity,
    driver: BusyPollDriver,
    pool: HeapBufferPool,
    incoming: VecDeque<UdpReceive<PacketBufMut, UdpRecvMeta>>,
    sent: Vec<(Vec<u8>, SocketAddr)>,
    window: usize,
    completed: usize,
    fail_send: bool,
    fail_recv: bool,
}

impl TestSocket {
    fn new(affinity: QueueAffinity) -> Self {
        Self {
            affinity,
            driver: BusyPollDriver::new(),
            pool: HeapBufferPool::with_payload_capacity(64),
            incoming: VecDeque::new(),
            sent: Vec::new(),
            window: usize::MAX,
            completed: 0,
            fail_send: false,
            fail_recv: false,
        }
    }

    fn deliver(&mut self, bytes: &[u8], port: u16) {
        let mut packet = self.pool.allocate().unwrap();
        packet.extend_from_slice(bytes).unwrap();
        self.incoming.push_back(UdpReceive::new(packet, meta(port, bytes.len())));
    }
}

fn address(port: u16) -> SocketAddr {
    SocketAddr::v4(Ipv4Addr::new(192, 0, 2, 1), port)
}

fn meta(port: u16, len: usize) -> UdpRecvMeta {
    UdpRecvMeta {
        source: address(port),
        destination: None,
        destination_port: None,
        ecn: None,
        len,
        gro_stride: None,
    }
}

impl UdpSocket for TestSocket {
    type RxBuffer = PacketBufMut;
    type TxBufferMut = PacketBufMut;
    type Driver = BusyPollDriver;
    type RecvMeta = UdpRecvMeta;
    type Endpoint = GenericUdpEndpoint;

    fn socket_id(&self) -> SocketId {
        SocketId::new(0)
    }

    fn mtu(&self) -> usize {
        1500
    }

    fn worker_affinity(&self) -> QueueAffinity {
        self.affinity
    }

    fn allocate_tx_batch(
        &mut self,
        out: &mut Vec<UdpTxBufferMut<Self>>,
        max: usize,
    ) -> Result<usize, Error> {
        for _ in 0..max {
            out.push(self.pool.allocate().ok_or(Error::WouldBlock)?);
        }
        Ok(max)
    }

    fn driver(&self) -> &Self::Driver {
        &self.driver
    }

    fn driver_mut(&mut self) -> &mut Self::Driver {
        &mut self.driver
    }

    fn send(&mut self, batch: &mut [TxSlot<UdpTransmit<PacketBuf>>]) -> Result<usize, SendError> {
        let mut accepted = 0;
        for slot in batch.iter_mut() {
            if self.window == 0 {
                break;
            }
            if self.fail_send && accepted == 1 {
                return Err(SendError {
                    accepted,
                    kind: Error::NoEgressRoute,
                });
            }
            let Some(tx) = slot.take() else {
                return Err(SendError {
                    accepted,
                    kind: Error::InvalidBatch,
                });
            };
            self.sent.push((tx.packet.as_slice().to_vec(), tx.destination));
            self.window -= 1;
            accepted += 1;
        }
        Ok(accepted)
    }

    fn prepare_udp_endpoint(&mut self, spec: UdpEndpointSpec) -> Result<Self::Endpoint, Error> {
        prepare_generic_udp_endpoint(self, spec)
    }

    fn udp_endpoint_spec<'a>(&self, endpoint: &'a Self::Endpoint) -> &'a UdpEndpointSpec {
        endpoint.spec()
    }

    fn udp_endpoint_info(&self, endpoint: &Self::Endpoint) -> UdpEndpointInfo {
        endpoint.info()
    }

    fn send_to_udp_endpoint(
        &mut self,
        endpoint: &mut Self::Endpoint,
        batch: &mut [TxSlot<UdpEndpointTransmit<PacketBuf>>],
    ) -> Result<usize, SendError> {
        send_generic_udp_endpoint(self, endpoint, batch)
    }

    fn recv(
        &mut self,
        out: &mut RecvBatch<UdpReceive<PacketBufMut, Self::RecvMeta>>,
    ) -> Result<usize, Error> {
        if self.fail_recv {
            return Err(Error::Truncated);
        }
        let mut received = 0;
        while out.remaining() > 0 {
            let Some(item) = self.incoming.pop_front() else {
                break;
            };
            out.push(item).map_err(|_| Error::BatchFull)?;
            received += 1;
        }
        Ok(received)
    }

    fn drain_tx_completions(&mut self) -> Result<usize, Error> {
        let completed = self.completed;
        self.completed = 0;
        Ok(completed)
    }
}

#[test]
fn source_addr_classifier_is_stable() {
    let meta = UdpRecvMeta {
        source: SocketAddr::v4(Ipv4Addr::new(192, 0, 2, 1), 4433),
        destination: None,
        destination_port: None,
        ecn: None,
        len: 0,
        gro_stride: None,
    };
    let buffer = PacketBuf::copy_from_slice(b"");
    let left = SourceAddrClassifier.classify(&meta, &buffer, 4);
    let right = SourceAddrClassifier.classify(&meta, &buffer, 4);
    assert_eq!(left, right);
}

fn mix64(mut value: u64) -> u64 {
    value ^= value >> 30;
    value = value.wrapping_mul(0xbf58_476d_1ce4_e5b9);
    value ^= value >> 27;
    value = value.wrapping_mul(0x94d0_49bb_1331_11eb);
    value ^ (value >> 31)
}

#[test]
fn source_addr_classifier_mixes_address_and_port() {
    let buffer = PacketBuf::copy_from_slice(b"");
    let mut item = meta(4433, 0);
    let key = u64::from(u32::from_be_bytes([192, 0, 2, 1])) ^ (4433u64 << 32);
    assert_eq!(
        SourceAddrClassifier.classify(&item, &buffer, 7),
        IngressDecision::Deliver((mix64(key) as usize) % 7)
    );
    item.source = SocketAddr::V6 {
        ip: Ipv6Addr { bits: 0x2001_0db8_0003_0004_0005_0006_0007_0008 },
        port: 9,
        flowinfo: 0,
        scope_id: 0,
    };
    let key = 0x2001_0db8_0005_0006u64 ^ (9u64 << 32);
    assert_eq!(
        SourceAddrClassifier.classify(&item, &buffer, 5),
        IngressDecision::Deliver((mix64(key) as usize) % 5)
    );
    assert_eq!(item.source.ip(), IpAddr::V6(Ipv6Addr { bits: 0x2001_0db8_0003_0004_0005_0006_0007_0008 }));
}

#[test]
fn without_lanes_packets_are_dropped() {
    let buffer = PacketBuf::copy_from_slice(b"");
    let item = meta(1, 0);
    assert_eq!(
        SourceAddrClassifier.classify(&item, &buffer, 0),
        IngressDecision::Drop
    );
    assert_eq!(
        AcceptAllClassifier.classify(&item, &buffer, 0),
        IngressDecision::Drop
    );
    assert_eq!(
        AcceptAllClassifier.classify(&item, &buffer, 3),
        IngressDecision::Deliver(0)
    );
}

#[test]
fn affinity_accepts_any_and_matching_concrete() {
    let sockets = [
        TestSocket::new(QueueAffinity::Any),
        TestSocket::new(QueueAffinity::Core(7)),
        TestSocket::new(QueueAffinity::Core(7)),
    ];
    assert_eq!(
        validate_socket_affinity(&sockets).unwrap(),
        TileAffinity::Affinity(QueueAffinity::Core(7))
    );
}

#[test]
fn affinity_rejects_conflicting_concrete_hints() {
    let sockets = [
        TestSocket::new(QueueAffinity::Core(7)),
        TestSocket::new(QueueAffinity::Core(8)),
    ];
    assert!(matches!(
        validate_socket_affinity(&sockets),
        Err(TileError::IncompatibleAffinity {
            expected: QueueAffinity::Core(7),
            found: QueueAffinity::Core(8),
        })
    ));
}

#[test]
fn no_concrete_hint_means_any_affinity() {
    let sockets = [TestSocket::new(QueueAffinity::Any)];
    let affinity = validate_socket_affinity(&sockets).unwrap();
    assert_eq!(affinity, TileAffinity::Any);
    assert_eq!(affinity.as_queue_affinity(), QueueAffinity::Any);
}

#[test]
fn defaults_are_those_documented() {
    let config = TileConfig::default();
    assert_eq!(config.queue_capacity, 1024);
    assert_eq!(config.batch_size, 64);
    assert_eq!(config.tx_buffer_queue_capacity, 1024);
    assert_eq!(config.tx_buffer_refill_watermark, 256);
    assert_eq!(config.tx_buffer_refill_batch, 256);
    assert!(config.pin_thread);
    assert_eq!(TileStats::default().tx_packets, 0);
}

#[test]
fn batches_keep_their_packets() {
    let mut pool = HeapBufferPool::with_payload_capacity(8);
    let mut batch: TileRxBatch<TestSocket> = TileRxBatch::with_capacity(4);
    assert!(batch.is_empty());
    assert!(batch.capacity() >= 4);
    for port in 1..4 {
        batch.push(TileRxPacket::new(
            UdpReceive::new(pool.allocate().unwrap(), meta(port, 0)),
            SocketIndex::new(2),
        ));
    }
    batch.reserve(100);
    assert!(batch.capacity() >= 103);
    assert_eq!(batch.len(), 3);
    assert_eq!(batch.pop().unwrap().meta.source.port(), 3);
    let rest = batch.drain();
    assert_eq!(rest.len(), 2);
    assert_eq!(rest[0].source_socket.get(), 2);
    assert!(batch.is_empty());
}

#[test]
fn received_packets_become_transmits_of_their_socket() {
    let mut pool = HeapBufferPool::with_payload_capacity(8);
    let mut packet = pool.allocate().unwrap();
    packet.extend_from_slice(b"hi").unwrap();
    let received: TileRxPacket<TestSocket> =
        TileRxPacket::new(UdpReceive::new(packet, meta(5, 2)), SocketIndex::from(3));
    let transmit = received.into_transmit(address(6));
    assert_eq!(transmit.source_socket.get(), 3);
    let item = transmit.into_udp_transmit();
    assert_eq!(item.packet.as_slice(), b"hi");
    assert_eq!(item.destination, address(6));
    assert_eq!(item.source_port, None);
}

#[test]
fn buffers_are_frozen_with_their_source() {
    let mut pool = HeapBufferPool::with_payload_capacity(8);
    let mut buffer: TileTxBuffer<TestSocket> =
        TileTxBuffer::new(SocketIndex::new(1), pool.allocate().unwrap());
    buffer.buffer_mut().extend_from_slice(b"ab").unwrap();
    assert_eq!(buffer.buffer().as_slice(), b"ab");
    assert_eq!(buffer.source_socket(), SocketIndex::new(1));
    let packet = buffer.freeze(address(7));
    assert_eq!(packet.packet.as_slice(), b"ab");
    let meta = TileTxMeta::new(address(8));
    assert_eq!(meta.destination, address(8));
    assert_eq!(meta.source_ip, None);
}

#[test]
fn lane_queues_hand_batches_over() {
    let mut rx: Queue<TileRxBatch<TestSocket>> = Queue::new(1);
    assert!(rx.push(TileRxBatch::with_capacity(1)).is_ok());
    assert!(rx.pop_batch().is_some());
    assert!(rx.pop_batch().is_none());
    let mut tx: Queue<TileTxBatch<TestSocket>> = Queue::new(1);
    assert!(tx.push_batch(TileTxBatch::with_capacity(1)).is_ok());
    assert!(tx.push_batch(TileTxBatch::with_capacity(1)).is_err());
}

#[test]
fn tile_errors_describe_themselves() {
    let io = || IoError {
        kind: IoErrorKind::Other,
        text: "no memory".to_string(),
    };
    for (error, text) in [
        (TileError::AlreadyStarted, "UDP tile was already started"),
        (
            TileError::FactoryPoisoned,
            "UDP tile socket factory mutex was poisoned",
        ),
        (
            TileError::EmptySocketSet,
            "UDP tile socket factory returned no sockets",
        ),
        (
            TileError::TooManySockets { count: 70000 },
            "UDP tile has too many sockets for SocketIndex: 70000",
        ),
        (
            TileError::IncompatibleAffinity {
                expected: QueueAffinity::Core(7),
                found: QueueAffinity::Core(8),
            },
            "UDP tile sockets reported incompatible affinities: expected Core(7), found Core(8)",
        ),
        (
            TileError::Spawn(io()),
            "UDP tile worker spawn failed: no memory",
        ),
        (
            TileError::from(Error::WouldBlock),
            "UDP tile socket operation failed: operation would block",
        ),
        (
            TileError::Send(SendError {
                accepted: 2,
                kind: Error::WouldBlock,
            }),
            "UDP tile send failed: send failed after accepting 2 items: operation would block",
        ),
    ] {
        assert_eq!(error.message(), text);
    }
    assert!(TileError::Pin(PinError::EmptyMask)
        .message()
        .starts_with("UDP tile thread pinning failed: "));
}
