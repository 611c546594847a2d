//! Whole tiles: lanes, sockets and passes of the worker.

use std::collections::VecDeque;

use fast_socket_rs::{
    prepare_generic_udp_endpoint, send_generic_udp_endpoint, BufferPool, BusyPollDriver, Error,
    GenericUdpEndpoint, HeapBufferPool, Ipv4Addr, PacketBuf, PacketBufMut, PacketBufferMut,
    QueueAffinity, RecvBatch, SendError, SocketAddr, SocketId, TxSlot, UdpEndpointInfo,
    UdpEndpointSpec, UdpEndpointTransmit, UdpReceive, UdpRecvMeta, UdpSocket, UdpTransmit,
    UdpTxBufferMut,
};
use fast_socket_rs::{
    AcceptAllClassifier, IngressClassifier, IngressDecision, SocketIndex, TileConfig, TileError,
    TileTxBatch, TileTxMeta, TileTxPacket, UdpSocketSet, UdpTile, UdpTileHandle,
};
use fast_socket_rs::tile_os::OsUdpTileBuilder;
use fast_socket_rs::udp_tile::tile_config_fits;
use fast_socket_rs::tile_set::{
    check_worker_threads, monitor_queue, TileWorkerError, WorkerExit, WorkerState,
    XdpTileBuildError, XdpUdpSocketSet, XdpUdpTileBuilder, XdpUdpTiles,
};
use fast_socket_rs::io::{IoError, IoErrorKind};
use fast_socket_rs::{QueueId, SourceAddrClassifier};

/// A socket that keeps what it sends and delivers what it was given.
struct TestSocket {
    affinity: QueueAffinity,
    driver: BusyPollDriver,
    pool: HeapBufferPool,
    incoming: VecDeque<UdpReceive<PacketBufMut, UdpRecvMeta>>,
    sent: Vec<(Vec<u8>, SocketAddr)>,
    window: usize,
    completed: usize,
    fail_send: bool,
    fail_recv: bool,
    fail_allocation: bool,
    fail_reclaim: bool,
}

impl TestSocket {
    fn new(affinity: QueueAffinity) -> Self {
        Self {
            affinity,
            driver: BusyPollDriver::new(),
            pool: HeapBufferPool::with_payload_capacity(64),
            incoming: VecDeque::new(),
            sent: Vec::new(),
            window: usize::MAX,
            completed: 0,
            fail_send: false,
            fail_recv: false,
            fail_allocation: false,
            fail_reclaim: false,
        }
    }

    fn deliver(&mut self, bytes: &[u8], port: u16) {
        let mut packet = self.pool.allocate().unwrap();
        packet.extend_from_slice(bytes).unwrap();
        self.incoming.push_back(UdpReceive::new(packet, meta(port, bytes.len())));
    }
}

fn address(port: u16) -> SocketAddr {
    SocketAddr::v4(Ipv4Addr::new(192, 0, 2, 1), port)
}

fn meta(port: u16, len: usize) -> UdpRecvMeta {
    UdpRecvMeta {
        source: address(port),
        destination: None,
        destination_port: None,
        ecn: None,
        len,
        gro_stride: None,
    }
}

impl UdpSocket for TestSocket {
    type RxBuffer = PacketBufMut;
    type TxBufferMut = PacketBufMut;
    type Driver = BusyPollDriver;
    type RecvMeta = UdpRecvMeta;
    type Endpoint = GenericUdpEndpoint;

    fn socket_id(&self) -> SocketId {
        SocketId::new(0)
    }

    fn mtu(&self) -> usize {
        1500
    }

    fn worker_affinity(&self) -> QueueAffinity {
        self.affinity
    }

    fn allocate_tx_batch(
        &mut self,
        out: &mut Vec<UdpTxBufferMut<Self>>,
        max: usize,
    ) -> Result<usize, Error> {
        if self.fail_allocation {
            return Err(Error::WouldBlock);
        }
        for _ in 0..max {
            out.push(self.pool.allocate().ok_or(Error::WouldBlock)?);
        }
        Ok(max)
    }

    fn driver(&self) -> &Self::Driver {
        &self.driver
    }

    fn driver_mut(&mut self) -> &mut Self::Driver {
        &mut self.driver
    }

    fn send(&mut self, batch: &mut [TxSlot<UdpTransmit<PacketBuf>>]) -> Result<usize, SendError> {
        let mut accepted = 0;
        for slot in batch.iter_mut() {
            if self.window == 0 {
                break;
            }
            if self.fail_send && accepted == 1 {
                return Err(SendError {
                    accepted,
                    kind: Error::NoEgressRoute,
                });
            }
            let Some(tx) = slot.take() else {
                return Err(SendError {
                    accepted,
                    kind: Error::InvalidBatch,
                });
            };
            self.sent.push((tx.packet.as_slice().to_vec(), tx.destination));
            self.window -= 1;
            accepted += 1;
        }
        Ok(accepted)
    }

    fn prepare_udp_endpoint(&mut self, spec: UdpEndpointSpec) -> Result<Self::Endpoint, Error> {
        prepare_generic_udp_endpoint(self, spec)
    }

    fn udp_endpoint_spec<'a>(&self, endpoint: &'a Self::Endpoint) -> &'a UdpEndpointSpec {
        endpoint.spec()
    }

    fn udp_endpoint_info(&self, endpoint: &Self::Endpoint) -> UdpEndpointInfo {
        endpoint.info()
    }

    fn send_to_udp_endpoint(
        &mut self,
        endpoint: &mut Self::Endpoint,
        batch: &mut [TxSlot<UdpEndpointTransmit<PacketBuf>>],
    ) -> Result<usize, SendError> {
        send_generic_udp_endpoint(self, endpoint, batch)
    }

    fn recv(
        &mut self,
        out: &mut RecvBatch<UdpReceive<PacketBufMut, Self::RecvMeta>>,
    ) -> Result<usize, Error> {
        if self.fail_recv {
            return Err(Error::Truncated);
        }
        let mut received = 0;
        while out.remaining() > 0 {
            let Some(item) = self.incoming.pop_front() else {
                break;
            };
            out.push(item).map_err(|_| Error::BatchFull)?;
            received += 1;
        }
        Ok(received)
    }

    fn drain_tx_completions(&mut self) -> Result<usize, Error> {
        if self.fail_reclaim {
            return Err(Error::BatchFull);
        }
        let completed = self.completed;
        self.completed = 0;
        Ok(completed)
    }
}

/// Sends each packet to the lane that its first byte names.
struct FirstByte;

impl IngressClassifier<UdpRecvMeta, PacketBufMut> for FirstByte {
    fn classify(
        &self,
        _meta: &UdpRecvMeta,
        packet: &PacketBufMut,
        _rx_queue_count: usize,
    ) -> IngressDecision {
        match packet.as_slice().first() {
            Some(0xff) => IngressDecision::Drop,
            Some(byte) => IngressDecision::Deliver(usize::from(*byte)),
            None => IngressDecision::Drop,
        }
    }
}

fn config(queue_capacity: usize, batch_size: usize) -> TileConfig {
    TileConfig {
        queue_capacity,
        batch_size,
        tx_buffer_queue_capacity: 4,
        tx_buffer_refill_watermark: 3,
        tx_buffer_refill_batch: 2,
        pin_thread: false,
    }
}

fn sockets(count: usize) -> Vec<TestSocket> {
    (0..count)
        .map(|_| TestSocket::new(QueueAffinity::Any))
        .collect()
}

type Tile = UdpTile<TestSocket, FirstByte>;

fn tile_with(lanes: usize, config: TileConfig, set: &[TestSocket]) -> (Tile, Vec<UdpTileHandle>) {
    let mut tile = UdpTile::with_config(FirstByte, lanes, config);
    let handles = (0..lanes)
        .map(|lane| tile.lane_handle(lane).unwrap())
        .collect();
    tile.attach_sockets(set).unwrap();
    (tile, handles)
}

fn packet(bytes: &[u8], source: u16) -> TileTxPacket<TestSocket> {
    TileTxPacket::new(
        PacketBuf::copy_from_slice(bytes),
        address(9),
        SocketIndex::new(source),
    )
}

#[test]
fn each_lane_has_one_handle() {
    let mut tile: Tile = UdpTile::new(FirstByte, 2);
    assert_eq!(tile.lane_handle(1).unwrap().lane_index(), 1);
    assert!(tile.lane_handle(1).is_none());
    assert!(tile.lane_handle(2).is_none());
    assert!(tile.lane_handle(0).is_some());
}

#[test]
fn a_tile_starts_once() {
    let mut tile: Tile = UdpTile::new(FirstByte, 1);
    assert!(tile.start().is_ok());
    assert!(matches!(tile.start(), Err(TileError::AlreadyStarted)));
}

#[test]
fn a_tile_needs_sockets() {
    let mut tile: Tile = UdpTile::new(FirstByte, 1);
    assert!(matches!(
        tile.attach_sockets(&[]),
        Err(TileError::EmptySocketSet)
    ));
    let clash = [
        TestSocket::new(QueueAffinity::Core(1)),
        TestSocket::new(QueueAffinity::Core(2)),
    ];
    assert!(matches!(
        tile.attach_sockets(&clash),
        Err(TileError::IncompatibleAffinity { .. })
    ));
}

#[test]
fn received_packets_reach_their_lanes_in_order() {
    let mut set = sockets(2);
    let (mut tile, handles) = tile_with(2, config(8, 2), &set);
    set[0].deliver(&[0, 1], 10);
    set[0].deliver(&[1, 1], 11);
    set[1].deliver(&[0, 2], 12);
    set[1].deliver(&[0xff], 13);
    set[1].deliver(&[7], 14);

    assert!(tile.poll_once(&mut set).unwrap());
    assert!(tile.poll_once(&mut set).unwrap());
    let batch = tile.pop_rx_batch(&handles[0]).unwrap().drain();
    let seen: Vec<_> = batch
        .iter()
        .map(|item| (item.packet.as_slice().to_vec(), item.source_socket.get()))
        .collect();
    assert_eq!(seen, [(vec![0, 1], 0), (vec![0, 2], 1)]);
    assert!(tile.pop_rx_batch(&handles[0]).is_none());
    let other = tile.pop_rx_batch(&handles[1]).unwrap();
    assert_eq!(other.len(), 1);
    tile.recycle_rx_batch(other);
    assert!(tile.alloc_rx_batch().is_empty());
    let stats = tile.stats();
    assert_eq!(stats.classifier_drops, 1);
    assert_eq!(stats.rx_queue_drops, 1);
}

#[test]
fn a_full_lane_loses_packets_and_counts_them() {
    let mut set = sockets(1);
    let (mut tile, handles) = tile_with(1, config(2, 2), &set);
    for value in 0..6 {
        set[0].deliver(&[0, value], 10);
    }
    while !set[0].incoming.is_empty() {
        tile.poll_once(&mut set).unwrap();
    }
    assert_eq!(tile.pop_rx_batch(&handles[0]).unwrap().len(), 2);
    assert!(tile.pop_rx_batch(&handles[0]).is_none());
    assert_eq!(tile.stats().rx_queue_drops, 4);
}

#[test]
fn packets_leave_through_their_source_socket() {
    let mut set = sockets(2);
    let (mut tile, handles) = tile_with(1, config(8, 2), &set);
    let mut packets = vec![packet(b"a", 1), packet(b"b", 0), packet(b"c", 5)];
    assert_eq!(tile.push_tx_packets(&handles[0], &mut packets), 3);
    assert!(packets.is_empty());
    assert!(!tile.lane_tx_queues_empty());
    assert!(tile.poll_once(&mut set).unwrap());
    assert!(tile.lane_tx_queues_empty());
    assert_eq!(set[0].sent, [(b"b".to_vec(), address(9))]);
    assert_eq!(set[1].sent, [(b"a".to_vec(), address(9))]);
    let stats = tile.stats();
    assert_eq!((stats.tx_packets, stats.tx_drops), (2, 1));
}

/// Sockets that can send each other's buffers.
struct Shared(Vec<TestSocket>);

impl UdpSocketSet for Shared {
    type Socket = TestSocket;

    fn sockets_mut(&mut self) -> &mut [TestSocket] {
        &mut self.0
    }

    fn can_transmit_from_any_socket(&self) -> bool {
        true
    }
}

#[test]
fn shared_sockets_take_turns() {
    let set = sockets(2);
    let (mut tile, handles) = tile_with(1, config(8, 2), &set);
    let mut set = Shared(set);
    let mut packets: Vec<_> = (0..6).map(|value| packet(&[value], 0)).collect();
    assert_eq!(tile.push_tx_packets(&handles[0], &mut packets), 6);
    tile.poll_once(&mut set).unwrap();
    assert_eq!(set.0[0].sent.len(), 2);
    assert_eq!(set.0[1].sent.len(), 4);
    assert_eq!(tile.stats().tx_packets, 6);
}

#[test]
fn nothing_is_lost_while_sockets_are_full() {
    let mut set = sockets(1);
    let (mut tile, handles) = tile_with(1, config(4, 2), &set);
    set[0].window = 1;
    let mut packets: Vec<_> = (0..4).map(|value| packet(&[value], 0)).collect();
    assert_eq!(tile.push_tx_packets(&handles[0], &mut packets), 4);
    tile.poll_once(&mut set).unwrap();
    assert_eq!(set[0].sent.len(), 1);
    set[0].window = 10;
    tile.poll_once(&mut set).unwrap();
    let bytes: Vec<_> = set[0].sent.iter().map(|(bytes, _)| bytes[0]).collect();
    assert_eq!(bytes, [0, 1, 2, 3]);
    assert_eq!(tile.stats().tx_packets, 4);
    assert!(!tile.poll_once(&mut set).unwrap());
}

#[test]
fn lanes_fill_buffers_of_the_sockets() {
    let mut set = sockets(2);
    let (mut tile, handles) = tile_with(1, config(8, 4), &set);
    let mut buffers = Vec::new();
    assert_eq!(tile.alloc_tx_buffers(&handles[0], 9, &mut buffers), 0);
    assert!(tile.poll_once(&mut set).unwrap());
    assert_eq!(tile.alloc_tx_buffers(&handles[0], 9, &mut buffers), 2);
    assert_eq!(buffers[0].source_socket().get(), 0);
    assert_eq!(buffers[1].source_socket().get(), 1);
    for (value, buffer) in buffers.iter_mut().enumerate() {
        buffer.buffer_mut().extend_from_slice(&[value as u8]).unwrap();
    }
    let meta = TileTxMeta::new(address(3));
    assert_eq!(tile.push_tx_buffers(&handles[0], &mut buffers, meta), 2);
    tile.poll_once(&mut set).unwrap();
    assert_eq!(set[0].sent, [(vec![0], address(3))]);
    assert_eq!(set[1].sent, [(vec![1], address(3))]);
}

#[test]
fn a_full_work_queue_keeps_the_rest() {
    let set = sockets(1);
    let (mut tile, handles) = tile_with(1, config(2, 2), &set);
    let mut packets: Vec<_> = (0..5).map(|value| packet(&[value], 0)).collect();
    assert_eq!(tile.push_tx_packets(&handles[0], &mut packets), 2);
    assert_eq!(packets.len(), 3);
    assert_eq!(packets[0].packet.as_slice(), [2]);
}

#[test]
fn socket_failures_end_the_pass() {
    let mut set = sockets(1);
    let (mut tile, handles) = tile_with(1, config(8, 4), &set);
    set[0].fail_recv = true;
    assert!(matches!(
        tile.poll_once(&mut set),
        Err(TileError::Socket(Error::Truncated))
    ));
    set[0].fail_recv = false;
    set[0].fail_send = true;
    let mut packets = vec![packet(b"a", 0), packet(b"b", 0)];
    tile.push_tx_packets(&handles[0], &mut packets);
    let Err(TileError::Send(error)) = tile.poll_once(&mut set) else {
        panic!("the send fails");
    };
    assert_eq!(error.accepted, 1);
    assert_eq!(tile.stats().tx_packets, 1);
    set[0].fail_send = false;
    tile.poll_once(&mut set).unwrap();
    assert_eq!(tile.stats().tx_packets, 2);
}

#[test]
fn sockets_behind_a_failing_one_are_left_alone() {
    let mut set = sockets(3);
    let (mut tile, handles) = tile_with(1, config(8, 4), &set);
    for socket in set.iter_mut() {
        socket.deliver(&[0], 10);
        socket.completed = 1;
    }
    set[1].fail_reclaim = true;
    assert!(matches!(
        tile.poll_once(&mut set),
        Err(TileError::Socket(Error::BatchFull))
    ));
    let completed: Vec<_> = set.iter().map(|socket| socket.completed).collect();
    assert_eq!(completed, [0, 1, 1]);
    set[1].fail_reclaim = false;
    set[0].fail_allocation = true;
    assert!(matches!(
        tile.poll_once(&mut set),
        Err(TileError::Socket(Error::WouldBlock))
    ));
    let waiting: Vec<_> = set.iter().map(|socket| socket.incoming.len()).collect();
    assert_eq!(waiting, [1, 1, 1]);
    let mut buffers = Vec::new();
    assert_eq!(tile.alloc_tx_buffers(&handles[0], 4, &mut buffers), 0);
    set[0].fail_allocation = false;
    set[1].fail_recv = true;
    assert!(matches!(
        tile.poll_once(&mut set),
        Err(TileError::Socket(Error::Truncated))
    ));
    let waiting: Vec<_> = set.iter().map(|socket| socket.incoming.len()).collect();
    assert_eq!(waiting, [0, 1, 1]);
    assert!(tile.pop_rx_batch(&handles[0]).is_none());
    set[1].fail_recv = false;
    assert!(tile.poll_once(&mut set).unwrap());
    let batch = tile.pop_rx_batch(&handles[0]).unwrap().drain();
    let sources: Vec<_> = batch.iter().map(|item| item.source_socket.get()).collect();
    assert_eq!(sources, [0, 1, 2]);
}

/// Sockets whose maintenance hands a packet to the first one, as often as told.
struct MaintainedSet {
    sockets: Vec<TestSocket>,
    rounds: usize,
}

impl UdpSocketSet for MaintainedSet {
    type Socket = TestSocket;

    fn poll_maintenance(&mut self) -> bool {
        if self.rounds == 0 {
            return false;
        }
        self.rounds -= 1;
        self.sockets[0].deliver(&[0], 10);
        true
    }

    fn sockets_mut(&mut self) -> &mut [TestSocket] {
        &mut self.sockets
    }
}

#[test]
fn a_pass_sees_what_maintenance_left() {
    let mut set = MaintainedSet {
        sockets: sockets(1),
        rounds: 0,
    };
    let (mut tile, handles) = tile_with(1, config(8, 4), &set.sockets);
    while tile.poll_once(&mut set).unwrap() {}
    assert!(tile.pop_rx_batch(&handles[0]).is_none());
    set.rounds = 1;
    assert!(tile.poll_once(&mut set).unwrap());
    assert_eq!(tile.pop_rx_batch(&handles[0]).unwrap().len(), 1);
    assert!(!tile.poll_once(&mut set).unwrap());
}

#[test]
fn completions_count_as_progress() {
    let mut set = sockets(1);
    let (mut tile, handles) = tile_with(1, config(8, 4), &set);
    while tile.poll_once(&mut set).unwrap() {}
    assert!(!tile.poll_once(&mut set).unwrap());
    set[0].completed = 3;
    assert!(tile.poll_once(&mut set).unwrap());
    assert_eq!(handles.len(), 1);
}

#[test]
fn os_tiles_are_built_from_shared_addresses() {
    let builder = OsUdpTileBuilder::reuse_port(address(53), 3, 2)
        .bind_device("eth1".to_string())
        .config(config(8, 2));
    let plans = builder.socket_plans();
    assert_eq!(plans.len(), 3);
    for (index, plan) in plans.into_iter().enumerate() {
        assert_eq!(plan.device.as_deref(), Some("eth1"));
        let (addr, reuse_port, config) = plan.builder.into_parts();
        assert_eq!(addr, address(53));
        assert!(reuse_port);
        assert_eq!(config.queue_id, QueueId::new(index as u32));
    }
    let mut tile: UdpTile<TestSocket, AcceptAllClassifier> =
        builder.classifier(AcceptAllClassifier).build();
    assert!(tile.lane_handle(1).is_some());
    assert!(tile.lane_handle(2).is_none());
    let tile: UdpTile<TestSocket, SourceAddrClassifier> = OsUdpTileBuilder::new(1).build();
    assert_eq!(tile.stats().tx_packets, 0);
}

#[test]
fn grouped_tiles_share_their_lanes() {
    let tiles = vec![
        UdpTile::with_config(FirstByte, 2, config(8, 2)),
        UdpTile::with_config(FirstByte, 2, config(8, 2)),
    ];
    let mut group: XdpUdpTiles<TestSocket, FirstByte> = XdpUdpTiles::new(tiles, 2);
    assert_eq!(group.len(), 2);
    assert!(!group.is_empty());
    assert_eq!(group.lane_handles(1).unwrap().len(), 2);
    assert!(group.lane_handles(1).is_none());
    assert!(group.lane_handles(2).is_none());
    assert_eq!(group.stats().tx_packets, 0);
}

#[test]
fn the_first_finished_worker_is_reported_once() {
    let mut workers = vec![
        WorkerState::Running,
        WorkerState::Finished(WorkerExit::Panicked),
        WorkerState::Finished(WorkerExit::Returned(Ok(()))),
        WorkerState::Finished(WorkerExit::Returned(Err(TileError::EmptySocketSet))),
    ];
    let texts: Vec<String> = (0..3)
        .map(|_| check_worker_threads(&mut workers).err().unwrap().message())
        .collect();
    assert_eq!(
        texts,
        [
            "tile worker 1 panicked",
            "tile worker 2 exited unexpectedly",
            "tile worker 3 failed: UDP tile socket factory returned no sockets",
        ]
    );
    assert!(check_worker_threads(&mut workers).is_ok());
    assert!(matches!(
        check_worker_threads(&mut vec![WorkerState::Finished(WorkerExit::Panicked)]),
        Err(TileWorkerError::Panicked { index: 0 })
    ));
}

#[test]
fn the_route_monitor_watches_the_first_queue() {
    assert_eq!(
        monitor_queue(&vec![vec![QueueId::new(4), QueueId::new(5)], vec![]]),
        QueueId::new(4)
    );
    assert_eq!(monitor_queue(&vec![vec![]]), QueueId::new(0));
    assert_eq!(monitor_queue(&vec![]), QueueId::new(0));
}

#[test]
fn build_errors_describe_themselves() {
    let error = XdpTileBuildError::Setup(IoError {
        kind: IoErrorKind::Other,
        text: "no such device".to_string(),
    });
    assert_eq!(error.message(), "XDP tile setup failed: no such device");
    let error = XdpTileBuildError::Tile(TileError::AlreadyStarted);
    assert_eq!(
        error.message(),
        "XDP tile startup failed: UDP tile was already started"
    );
}

#[test]
fn tile_sizes_are_tested() {
    let config = TileConfig::default();
    assert!(tile_config_fits(1, config));
    assert!(!tile_config_fits(0, config));
    assert!(!tile_config_fits(usize::MAX, config));
    assert!(!tile_config_fits(
        1,
        TileConfig {
            batch_size: 0,
            ..config
        }
    ));
    assert!(!tile_config_fits(
        1,
        TileConfig {
            queue_capacity: usize::MAX,
            batch_size: 1,
            ..config
        }
    ));
}

#[test]
fn a_builder_makes_one_tile_per_worker() {
    let queues = vec![
        vec![QueueId::new(4), QueueId::new(5)],
        vec![QueueId::new(6)],
    ];
    let builder = XdpUdpTileBuilder::new(queues, address(9), 2)
        .classifier(AcceptAllClassifier)
        .config(TileConfig {
            batch_size: 8,
            ..TileConfig::default()
        });
    assert_eq!(builder.local_addr(), address(9));
    let (queue, interval, registered) = builder.route_monitor_plan();
    assert_eq!(queue, QueueId::new(4));
    assert_eq!(interval.as_millis(), 1000);
    assert_eq!(registered, [2, 1]);
    let mut tiles: XdpUdpTiles<TestSocket, AcceptAllClassifier> = builder.build();
    assert_eq!(tiles.len(), 2);
    let handles = tiles.lane_handles(1).unwrap();
    assert_eq!(handles.len(), 2);
    assert_eq!(handles[0].lane_index(), 1);
    assert!(tiles.lane_handles(1).is_none());
    assert!(tiles.lane_handles(2).is_none());
    assert_eq!(tiles.stats().tx_packets, 0);
}

#[test]
fn a_socket_set_knows_whether_memory_is_shared() {
    let mut set = XdpUdpSocketSet::new(vec![TestSocket::new(QueueAffinity::Any)], true);
    assert!(set.can_transmit_from_any_socket());
    assert_eq!(set.sockets_mut().len(), 1);
    set.aggregate_mut().push(TestSocket::new(QueueAffinity::Any));
    assert_eq!(set.aggregate().len(), 2);
    assert!(!set.poll_maintenance());
    assert_eq!(set.into_inner().len(), 2);
    let set = XdpUdpSocketSet::new(Vec::<TestSocket>::new(), false);
    assert!(!set.can_transmit_from_any_socket());
}

#[test]
fn each_socket_of_a_tile_can_be_configured() {
    let builder = OsUdpTileBuilder::reuse_port(address(9), 3, 1).bind_device("eth0".to_string());
    let plans = builder.configure_socket(|index, socket| socket.mtu(1000 + index));
    assert_eq!(plans.len(), 3);
    for (index, plan) in plans.into_iter().enumerate() {
        assert_eq!(plan.device.as_deref(), Some("eth0"));
        let (addr, reuse_port, config) = plan.builder.into_parts();
        assert_eq!(addr, address(9));
        assert!(reuse_port);
        assert_eq!(config.mtu, 1000 + index);
        assert_eq!(config.queue_id, QueueId::new(index as u32));
    }
}

#[test]
fn recycled_batches_are_used_again() {
    let mut tile: UdpTile<TestSocket, AcceptAllClassifier> =
        UdpTile::with_config(AcceptAllClassifier, 1, config(8, 2));
    let mut batch = tile.alloc_rx_batch();
    batch.reserve(500);
    assert!(batch.capacity() >= 500);
    tile.recycle_rx_batch(batch);
    let again = tile.alloc_rx_batch();
    assert!(again.is_empty());
    assert!(again.capacity() >= 500);
    let mut sent: TileTxBatch<TestSocket> = TileTxBatch::with_capacity(0);
    sent.reserve(7);
    assert!(sent.capacity() >= 7);
    assert!(sent.is_empty());
}
