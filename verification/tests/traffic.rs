//! Sending sequenced packets and answering received ones.

use std::collections::VecDeque;

use fast_socket_rs::{
    prepare_generic_udp_endpoint, send_generic_udp_endpoint, BufferPool, BusyPollDriver, Error,
    GenericUdpEndpoint, HeapBufferPool, Ipv4Addr, PacketBuf, PacketBufMut, PacketBufferMut,
    QueueAffinity, RecvBatch, SendError, SocketAddr, SocketId, TxSlot, UdpEndpointInfo,
    UdpEndpointSpec, UdpEndpointTransmit, UdpReceive, UdpRecvMeta, UdpSocket, UdpTransmit,
    UdpTxBufferMut,
};
use fast_socket_rs::bench::{payload, RunLimit};
use fast_socket_rs::traffic::{
    count_received, fill_packet, pong_packet, pong_received, reply_slots, send_packet_batch,
    sequenced_batch, serve_all, serve_socket, supervise, worker_start, BlastAccount, BlastError,
    BlastWorker, ListenMode, ReadyBarrier, ReadyEvent, ReadyStep, StartStep, SupervisorStep,
};
use fast_socket_rs::{
    BufferAccessError, BufferLayout, ChecksumStatus, IpPacketReceive, IpPacketRecvMeta,
    IpPacketSocket, IpPacketTransmit, IpVersion, TimeSpan, V4Only,
};

/// A socket that keeps what it sends and delivers what it was given.
struct TestSocket {
    affinity: QueueAffinity,
    driver: BusyPollDriver,
    pool: HeapBufferPool,
    incoming: VecDeque<UdpReceive<PacketBufMut, UdpRecvMeta>>,
    sent: Vec<(Vec<u8>, SocketAddr)>,
    window: usize,
    completed: usize,
    fail_send: bool,
    fail_recv: bool,
}

impl TestSocket {
    fn new(affinity: QueueAffinity) -> Self {
        Self {
            affinity,
            driver: BusyPollDriver::new(),
            pool: HeapBufferPool::with_payload_capacity(64),
            incoming: VecDeque::new(),
            sent: Vec::new(),
            window: usize::MAX,
            completed: 0,
            fail_send: false,
            fail_recv: false,
        }
    }

    fn deliver(&mut self, bytes: &[u8], port: u16) {
        let mut packet = self.pool.allocate().unwrap();
        packet.extend_from_slice(bytes).unwrap();
        self.incoming.push_back(UdpReceive::new(packet, meta(port, bytes.len())));
    }
}

fn address(port: u16) -> SocketAddr {
    SocketAddr::v4(Ipv4Addr::new(192, 0, 2, 1), port)
}

fn meta(port: u16, len: usize) -> UdpRecvMeta {
    UdpRecvMeta {
        source: address(port),
        destination: None,
        destination_port: None,
        ecn: None,
        len,
        gro_stride: None,
    }
}

impl UdpSocket for TestSocket {
    type RxBuffer = PacketBufMut;
    type TxBufferMut = PacketBufMut;
    type Driver = BusyPollDriver;
    type RecvMeta = UdpRecvMeta;
    type Endpoint = GenericUdpEndpoint;

    fn socket_id(&self) -> SocketId {
        SocketId::new(0)
    }

    fn mtu(&self) -> usize {
        1500
    }

    fn worker_affinity(&self) -> QueueAffinity {
        self.affinity
    }

    fn allocate_tx_batch(
        &mut self,
        out: &mut Vec<UdpTxBufferMut<Self>>,
        max: usize,
    ) -> Result<usize, Error> {
        for _ in 0..max {
            out.push(self.pool.allocate().ok_or(Error::WouldBlock)?);
        }
        Ok(max)
    }

    fn driver(&self) -> &Self::Driver {
        &self.driver
    }

    fn driver_mut(&mut self) -> &mut Self::Driver {
        &mut self.driver
    }

    fn send(&mut self, batch: &mut [TxSlot<UdpTransmit<PacketBuf>>]) -> Result<usize, SendError> {
        let mut accepted = 0;
        for slot in batch.iter_mut() {
            if self.window == 0 {
                break;
            }
            if self.fail_send && accepted == 1 {
                return Err(SendError {
                    accepted,
                    kind: Error::NoEgressRoute,
                });
            }
            let Some(tx) = slot.take() else {
                return Err(SendError {
                    accepted,
                    kind: Error::InvalidBatch,
                });
            };
            self.sent.push((tx.packet.as_slice().to_vec(), tx.destination));
            self.window -= 1;
            accepted += 1;
        }
        Ok(accepted)
    }

    fn prepare_udp_endpoint(&mut self, spec: UdpEndpointSpec) -> Result<Self::Endpoint, Error> {
        prepare_generic_udp_endpoint(self, spec)
    }

    fn udp_endpoint_spec<'a>(&self, endpoint: &'a Self::Endpoint) -> &'a UdpEndpointSpec {
        endpoint.spec()
    }

    fn udp_endpoint_info(&self, endpoint: &Self::Endpoint) -> UdpEndpointInfo {
        endpoint.info()
    }

    fn send_to_udp_endpoint(
        &mut self,
        endpoint: &mut Self::Endpoint,
        batch: &mut [TxSlot<UdpEndpointTransmit<PacketBuf>>],
    ) -> Result<usize, SendError> {
        send_generic_udp_endpoint(self, endpoint, batch)
    }

    fn recv(
        &mut self,
        out: &mut RecvBatch<UdpReceive<PacketBufMut, Self::RecvMeta>>,
    ) -> Result<usize, Error> {
        if self.fail_recv {
            return Err(Error::Truncated);
        }
        let mut received = 0;
        while out.remaining() > 0 {
            let Some(item) = self.incoming.pop_front() else {
                break;
            };
            out.push(item).map_err(|_| Error::BatchFull)?;
            received += 1;
        }
        Ok(received)
    }

    fn drain_tx_completions(&mut self) -> Result<usize, Error> {
        let completed = self.completed;
        self.completed = 0;
        Ok(completed)
    }
}

#[test]
fn batches_carry_consecutive_sequence_numbers() {
    let mut socket = TestSocket::new(QueueAffinity::Any);
    let mut bytes = payload(10);
    let mut sequence = 0x0102;
    socket.completed = 5;
    let (accepted, completed) =
        send_packet_batch(&mut socket, address(9), &mut bytes, &mut sequence).unwrap();
    assert_eq!((accepted, completed), (128, 5));
    assert_eq!(sequence, 0x0102 + 128);
    assert_eq!(socket.sent[0].0, [0, 0, 0, 0, 0, 0, 1, 2, 8, 9]);
    assert_eq!(socket.sent[1].0, [0, 0, 0, 0, 0, 0, 1, 3, 8, 9]);
    assert_eq!(socket.sent[127].1, address(9));
}

#[test]
fn the_sequence_goes_on_with_the_first_packet_not_accepted() {
    let mut socket = TestSocket::new(QueueAffinity::Any);
    socket.window = 3;
    let mut bytes = payload(8);
    let mut sequence = u64::MAX - 1;
    let (accepted, _) =
        send_packet_batch(&mut socket, address(9), &mut bytes, &mut sequence).unwrap();
    assert_eq!(accepted, 3);
    assert_eq!(sequence, 1);
    socket.window = 1;
    send_packet_batch(&mut socket, address(9), &mut bytes, &mut sequence).unwrap();
    assert_eq!(socket.sent[3].0, 1u64.to_be_bytes());
}

#[test]
fn payloads_that_do_not_fit_are_refused() {
    let mut socket = TestSocket::new(QueueAffinity::Any);
    let mut bytes = payload(65);
    let mut sequence = 0;
    assert!(matches!(
        send_packet_batch(&mut socket, address(9), &mut bytes, &mut sequence),
        Err(BlastError::Buffer(BufferAccessError::InsufficientTailroom {
            available: 64,
            requested: 65,
        }))
    ));
    let mut sequence = 7;
    let buffers = vec![
        PacketBufMut::new(BufferLayout::new(65)),
        PacketBufMut::new(BufferLayout::new(4)),
    ];
    assert!(sequenced_batch(buffers, &mut bytes, &mut sequence, address(1)).is_err());
    assert_eq!(sequence, 8);
}

#[test]
fn send_failures_are_reported() {
    let mut socket = TestSocket::new(QueueAffinity::Any);
    socket.fail_send = true;
    let mut bytes = payload(8);
    let mut sequence = 0;
    assert!(matches!(
        send_packet_batch(&mut socket, address(9), &mut bytes, &mut sequence),
        Err(BlastError::Send(SendError { accepted: 1, .. }))
    ));
}

#[test]
fn completed_packets_are_published_in_groups() {
    let mut account = BlastAccount::new();
    account.record(200, 100);
    assert_eq!(account.in_flight, 100);
    assert_eq!((account.pending_completed, account.published), (100, 0));
    account.record(0, 28);
    assert_eq!((account.pending_completed, account.published), (0, 128));
    account.record(0, 100);
    assert_eq!(account.in_flight, 0);
    account.flush_blast_completions(false);
    assert_eq!(account.published, 128);
    account.flush_blast_completions(true);
    assert_eq!((account.pending_completed, account.published), (0, 228));
}

#[test]
fn the_barrier_opens_when_all_are_ready() {
    let mut barrier = ReadyBarrier {
        ready: 0,
        expected: 2,
    };
    assert_eq!(barrier.on_event(ReadyEvent::Timeout(false)), ReadyStep::Wait);
    assert_eq!(barrier.on_event(ReadyEvent::Ready), ReadyStep::Wait);
    assert_eq!(
        barrier.on_event(ReadyEvent::Disconnected(false)),
        ReadyStep::FailWithMissing(1)
    );
    assert_eq!(
        barrier.on_event(ReadyEvent::Disconnected(true)),
        ReadyStep::FailWithWorkerError
    );
    assert_eq!(
        barrier.on_event(ReadyEvent::WorkerFailed),
        ReadyStep::FailWithWorkerError
    );
    assert_eq!(
        barrier.on_event(ReadyEvent::Timeout(true)),
        ReadyStep::FailWithShutdown
    );
    assert_eq!(barrier.on_event(ReadyEvent::Ready), ReadyStep::Start);
}

#[test]
fn replies_go_back_to_the_source() {
    let mut socket = TestSocket::new(QueueAffinity::Any);
    socket.deliver(b"a", 5);
    socket.deliver(b"b", 6);
    let received: Vec<_> = socket.incoming.drain(..).collect();
    let mut slots = reply_slots(received);
    assert_eq!(socket.send(&mut slots).unwrap(), 2);
    assert_eq!(
        socket.sent,
        [(b"a".to_vec(), address(5)), (b"b".to_vec(), address(6))]
    );
}

fn datagram(port: u16) -> Vec<u8> {
    let mut packet = vec![0u8; 30];
    packet[0] = 0x45;
    packet[3] = 30;
    packet[9] = 17;
    packet[12..16].copy_from_slice(&[192, 0, 2, 1]);
    packet[16..20].copy_from_slice(&[198, 51, 100, 7]);
    packet[20..22].copy_from_slice(&77u16.to_be_bytes());
    packet[22..24].copy_from_slice(&port.to_be_bytes());
    packet[25] = 10;
    packet[28..30].copy_from_slice(b"hi");
    packet
}

fn received(bytes: &[u8]) -> IpPacketReceive<PacketBufMut, IpPacketRecvMeta> {
    let mut packet = PacketBufMut::new(BufferLayout::new(64));
    packet.extend_from_slice(bytes).unwrap();
    IpPacketReceive::new(
        packet,
        IpPacketRecvMeta {
            version: IpVersion::V4,
            len: bytes.len(),
            checksum: ChecksumStatus::NotChecked,
        },
    )
}

#[test]
fn packets_for_the_port_are_counted() {
    let items = vec![
        received(&datagram(53)),
        received(&datagram(54)),
        received(b""),
        received(&datagram(53)),
    ];
    let mut total = 10;
    let mut dropped = 20;
    assert_eq!(count_received(&items, 53, &mut total, &mut dropped), 2);
    assert_eq!((total, dropped), (12, 22));
}

#[test]
fn an_answer_is_cut_and_reflected() {
    let mut padded = datagram(53);
    padded.extend_from_slice(&[0xee; 6]);
    let (answer, destination) = pong_packet(received(&padded).packet, 53).unwrap();
    assert_eq!(destination, Ipv4Addr::new(192, 0, 2, 1));
    let bytes = answer.as_slice();
    assert_eq!(bytes.len(), 30);
    assert_eq!(&bytes[12..16], &[198, 51, 100, 7]);
    assert_eq!(&bytes[16..20], &[192, 0, 2, 1]);
    assert_eq!(&bytes[20..24], &[0, 53, 0, 77]);
    assert_eq!(&bytes[28..], b"hi");
    assert!(pong_packet(received(&padded).packet, 54).is_none());
    assert!(pong_packet(received(b"").packet, 54).is_none());
}

struct PongSocket {
    driver: BusyPollDriver,
    pool: HeapBufferPool,
    incoming: Vec<IpPacketReceive<PacketBufMut, IpPacketRecvMeta>>,
    sent: Vec<Vec<u8>>,
    room: usize,
    notified: usize,
    drained: usize,
    fail_recv: bool,
}

impl PongSocket {
    fn new(room: usize) -> Self {
        Self {
            driver: BusyPollDriver::new(),
            pool: HeapBufferPool::with_payload_capacity(64),
            incoming: Vec::new(),
            sent: Vec::new(),
            room,
            notified: 0,
            drained: 0,
            fail_recv: false,
        }
    }
}

impl IpPacketSocket for PongSocket {
    type RxBuffer = PacketBufMut;
    type TxBufferMut = PacketBufMut;
    type Family = V4Only;
    type Egress = ();
    type Driver = BusyPollDriver;
    type RecvMeta = IpPacketRecvMeta;

    fn socket_id(&self) -> SocketId {
        SocketId::new(0)
    }

    fn mtu(&self) -> usize {
        1500
    }

    fn driver(&self) -> &Self::Driver {
        &self.driver
    }

    fn driver_mut(&mut self) -> &mut Self::Driver {
        &mut self.driver
    }

    fn allocate_tx_batch(
        &mut self,
        out: &mut Vec<PacketBufMut>,
        max: usize,
    ) -> Result<usize, Error> {
        for _ in 0..max {
            out.push(self.pool.allocate().ok_or(Error::WouldBlock)?);
        }
        Ok(max)
    }

    fn send(
        &mut self,
        batch: &mut [TxSlot<IpPacketTransmit<PacketBuf, (), V4Only>>],
    ) -> Result<usize, SendError> {
        let mut accepted = 0;
        for slot in batch.iter_mut() {
            if self.room == 0 {
                break;
            }
            let Some(tx) = slot.take() else {
                break;
            };
            self.sent.push(tx.packet.as_slice().to_vec());
            self.room -= 1;
            accepted += 1;
        }
        Ok(accepted)
    }

    fn recv(
        &mut self,
        out: &mut RecvBatch<IpPacketReceive<PacketBufMut, IpPacketRecvMeta>>,
    ) -> Result<usize, Error> {
        if self.fail_recv {
            return Err(Error::NoEgressRoute);
        }
        let count = self.incoming.len();
        for item in self.incoming.drain(..) {
            assert!(out.push(item).is_ok());
        }
        Ok(count)
    }

    fn drain_tx_completions(&mut self) -> Result<usize, Error> {
        self.drained += 1;
        Ok(0)
    }

    fn notify_tx(&mut self) -> Result<(), Error> {
        self.notified += 1;
        Ok(())
    }
}

#[test]
fn answers_are_sent_where_there_is_a_way() {
    let mut socket = PongSocket::new(1);
    let items = || {
        vec![
            received(&datagram(54)),
            received(&datagram(53)),
            received(&datagram(53)),
        ]
    };
    let (mut total, mut dropped) = (0, 0);
    let no_way = |_destination: Ipv4Addr| None;
    assert_eq!(
        pong_received(&mut socket, items(), &no_way, 53, true, &mut total, &mut dropped).unwrap(),
        0
    );
    assert_eq!((total, dropped), (0, 3));
    let way = |destination: Ipv4Addr| {
        assert_eq!(destination, Ipv4Addr::new(192, 0, 2, 1));
        Some(())
    };
    assert_eq!(
        pong_received(&mut socket, items(), &way, 53, true, &mut total, &mut dropped).unwrap(),
        1
    );
    assert_eq!((total, dropped), (1, 5));
    assert_eq!(socket.notified, 1);
    assert_eq!(socket.sent[0].len(), 30);
}

#[test]
fn a_packet_is_filled_under_its_number() {
    let mut bytes = payload(10);
    let mut packet = PacketBufMut::new(BufferLayout::new(10));
    fill_packet(&mut packet, &mut bytes, 0x0203).unwrap();
    assert_eq!(packet.as_slice(), [0, 0, 0, 0, 0, 0, 2, 3, 8, 9]);
    let mut small = PacketBufMut::new(BufferLayout::new(9));
    assert_eq!(
        fill_packet(&mut small, &mut bytes, 1),
        Err(BufferAccessError::InsufficientTailroom {
            available: 9,
            requested: 10,
        })
    );
}

#[test]
fn a_worker_takes_its_sockets_in_turn() {
    let mut sockets = vec![
        TestSocket::new(QueueAffinity::Any),
        TestSocket::new(QueueAffinity::Any),
    ];
    sockets[0].window = 2;
    sockets[1].window = 3;
    sockets[1].completed = 4;
    let mut worker = BlastWorker::new();
    let mut bytes = payload(8);
    assert!(matches!(
        worker.send_pass(&mut sockets, address(9), &mut bytes),
        Ok(false)
    ));
    assert_eq!((worker.next_socket, worker.sequence), (1, 2));
    assert!(matches!(
        worker.send_pass(&mut sockets, address(9), &mut bytes),
        Ok(false)
    ));
    assert_eq!((worker.next_socket, worker.sequence), (0, 5));
    assert_eq!(sockets[1].sent[0].0, 2u64.to_be_bytes());
    assert_eq!(worker.account.in_flight, 1);
    assert_eq!(worker.account.pending_completed, 4);
    worker.passes = 255;
    sockets[0].window = 0;
    assert!(matches!(
        worker.send_pass(&mut sockets, address(9), &mut bytes),
        Ok(true)
    ));
    sockets[1].window = 3;
    sockets[1].fail_send = true;
    assert!(matches!(
        worker.send_pass(&mut sockets, address(9), &mut bytes),
        Err((1, BlastError::Send(_)))
    ));
    let deadline = TimeSpan::from_millis(500);
    assert!(worker.account.keeps_draining(TimeSpan::from_millis(499), deadline));
    assert!(!worker.account.keeps_draining(deadline, deadline));
    assert!(worker.account.record_drain(0));
    assert!(!worker.account.record_drain(2));
    assert!(!worker.account.keeps_draining(TimeSpan::from_millis(0), deadline));
    worker.account.flush_blast_completions(true);
    assert_eq!(worker.account.published, 6);
}

#[test]
fn sockets_are_served_in_order() {
    let way = |_destination: Ipv4Addr| Some(());
    let (mut total, mut dropped) = (0, 0);
    let mut rx = RecvBatch::with_capacity(8);
    let mut socket = PongSocket::new(9);
    assert!(matches!(
        serve_socket(
            &mut socket,
            &mut rx,
            ListenMode::Count,
            &way,
            53,
            &mut total,
            &mut dropped
        ),
        Ok(None)
    ));
    assert_eq!(socket.drained, 0);
    socket.incoming = vec![received(&datagram(53)), received(&datagram(54))];
    assert!(matches!(
        serve_socket(
            &mut socket,
            &mut rx,
            ListenMode::Count,
            &way,
            53,
            &mut total,
            &mut dropped
        ),
        Ok(Some(1))
    ));
    assert_eq!((total, dropped), (1, 1));
    assert!(socket.sent.is_empty());

    let mut sockets = vec![PongSocket::new(9), PongSocket::new(9), PongSocket::new(9)];
    assert!(matches!(
        serve_all(
            &mut sockets,
            &mut rx,
            ListenMode::Pong { notify: true },
            &way,
            53,
            &mut total,
            &mut dropped
        ),
        Ok(false)
    ));
    assert_eq!(sockets[2].drained, 1);
    sockets[0].incoming = vec![received(&datagram(54))];
    sockets[1].incoming = vec![received(&datagram(53))];
    assert!(matches!(
        serve_all(
            &mut sockets,
            &mut rx,
            ListenMode::Pong { notify: true },
            &way,
            53,
            &mut total,
            &mut dropped
        ),
        Ok(true)
    ));
    assert_eq!((total, dropped), (2, 2));
    assert_eq!(sockets[1].sent.len(), 1);
    sockets[1].fail_recv = true;
    sockets[2].incoming = vec![received(&datagram(53))];
    assert!(matches!(
        serve_all(
            &mut sockets,
            &mut rx,
            ListenMode::Pong { notify: true },
            &way,
            53,
            &mut total,
            &mut dropped
        ),
        Err(BlastError::Socket(Error::NoEgressRoute))
    ));
    assert_eq!(sockets[2].incoming.len(), 1);
}

#[test]
fn workers_are_supervised() {
    let limit = RunLimit {
        count: Some(10),
        duration: None,
    };
    let now = TimeSpan::from_millis(0);
    assert_eq!(
        supervise(limit, 9, now, false, false, false),
        SupervisorStep::Continue
    );
    assert_eq!(
        supervise(limit, 10, now, false, false, false),
        SupervisorStep::Stop
    );
    assert_eq!(
        supervise(limit, 0, now, true, false, false),
        SupervisorStep::Stop
    );
    assert_eq!(
        supervise(limit, 0, now, false, true, false),
        SupervisorStep::Stop
    );
    assert_eq!(
        supervise(limit, 10, now, true, true, true),
        SupervisorStep::Fail
    );
    assert_eq!(worker_start(false, false, false), StartStep::Wait);
    assert_eq!(worker_start(true, false, false), StartStep::Run);
    assert_eq!(worker_start(true, true, false), StartStep::Quit);
    assert_eq!(worker_start(false, false, true), StartStep::Quit);
}

#[test]
fn polled_sockets_are_not_notified() {
    let way = |_destination: Ipv4Addr| Some(());
    let (mut total, mut dropped) = (0, 0);
    let mut socket = PongSocket::new(9);
    let items = vec![received(&datagram(53)), received(&datagram(53))];
    assert_eq!(
        pong_received(&mut socket, items, &way, 53, false, &mut total, &mut dropped).unwrap(),
        2
    );
    assert_eq!(socket.notified, 0);
    assert_eq!(socket.sent.len(), 2);
}
