//! Actors that own a socket.

use std::collections::VecDeque;

use fast_socket_rs::{
    prepare_generic_udp_endpoint, send_generic_udp_endpoint, BufferPool, BusyPollDriver, Error,
    GenericUdpEndpoint, HeapBufferPool, Ipv4Addr, PacketBuf, PacketBufMut, PacketBufferMut,
    QueueAffinity, RecvBatch, SendError, SocketAddr, SocketId, TxSlot, UdpEndpointInfo,
    UdpEndpointSpec, UdpEndpointTransmit, UdpReceive, UdpRecvMeta, UdpSocket, UdpTransmit,
    UdpTxBufferMut,
};
use fast_socket_rs::actor::{after_queueing, ActorState};
use fast_socket_rs::io::{IoError, IoErrorKind};
use fast_socket_rs::{
    ActorClosed, ActorCommand, ActorConfig, ActorTxBuffer, ActorTxMeta, ActorWait, AsyncUdpError,
    CommandOutcome, PacketBuffer, UdpActor,
};

/// A socket that keeps what it sends and delivers what it was given.
struct TestSocket {
    affinity: QueueAffinity,
    driver: BusyPollDriver,
    pool: HeapBufferPool,
    incoming: VecDeque<UdpReceive<PacketBufMut, UdpRecvMeta>>,
    sent: Vec<(Vec<u8>, SocketAddr)>,
    window: usize,
    completed: usize,
    fail_send: bool,
    fail_recv: bool,
    notified: usize,
    fail_notify: bool,
    fail_reclaim: bool,
}

impl TestSocket {
    fn new(affinity: QueueAffinity) -> Self {
        Self {
            affinity,
            driver: BusyPollDriver::new(),
            pool: HeapBufferPool::with_payload_capacity(64),
            incoming: VecDeque::new(),
            sent: Vec::new(),
            window: usize::MAX,
            completed: 0,
            fail_send: false,
            fail_recv: false,
            notified: 0,
            fail_notify: false,
            fail_reclaim: false,
        }
    }

    fn deliver(&mut self, bytes: &[u8], port: u16) {
        let mut packet = self.pool.allocate().unwrap();
        packet.extend_from_slice(bytes).unwrap();
        self.incoming.push_back(UdpReceive::new(packet, meta(port, bytes.len())));
    }
}

fn address(port: u16) -> SocketAddr {
    SocketAddr::v4(Ipv4Addr::new(192, 0, 2, 1), port)
}

fn meta(port: u16, len: usize) -> UdpRecvMeta {
    UdpRecvMeta {
        source: address(port),
        destination: None,
        destination_port: None,
        ecn: None,
        len,
        gro_stride: None,
    }
}

impl UdpSocket for TestSocket {
    type RxBuffer = PacketBufMut;
    type TxBufferMut = PacketBufMut;
    type Driver = BusyPollDriver;
    type RecvMeta = UdpRecvMeta;
    type Endpoint = GenericUdpEndpoint;

    fn socket_id(&self) -> SocketId {
        SocketId::new(0)
    }

    fn mtu(&self) -> usize {
        1500
    }

    fn worker_affinity(&self) -> QueueAffinity {
        self.affinity
    }

    fn allocate_tx_batch(
        &mut self,
        out: &mut Vec<UdpTxBufferMut<Self>>,
        max: usize,
    ) -> Result<usize, Error> {
        for _ in 0..max {
            out.push(self.pool.allocate().ok_or(Error::WouldBlock)?);
        }
        Ok(max)
    }

    fn driver(&self) -> &Self::Driver {
        &self.driver
    }

    fn driver_mut(&mut self) -> &mut Self::Driver {
        &mut self.driver
    }

    fn send(&mut self, batch: &mut [TxSlot<UdpTransmit<PacketBuf>>]) -> Result<usize, SendError> {
        let mut accepted = 0;
        for slot in batch.iter_mut() {
            if self.window == 0 {
                break;
            }
            if self.fail_send && accepted == 1 {
                return Err(SendError {
                    accepted,
                    kind: Error::NoEgressRoute,
                });
            }
            let Some(tx) = slot.take() else {
                return Err(SendError {
                    accepted,
                    kind: Error::InvalidBatch,
                });
            };
            self.sent.push((tx.packet.as_slice().to_vec(), tx.destination));
            self.window -= 1;
            accepted += 1;
        }
        Ok(accepted)
    }

    fn prepare_udp_endpoint(&mut self, spec: UdpEndpointSpec) -> Result<Self::Endpoint, Error> {
        prepare_generic_udp_endpoint(self, spec)
    }

    fn udp_endpoint_spec<'a>(&self, endpoint: &'a Self::Endpoint) -> &'a UdpEndpointSpec {
        endpoint.spec()
    }

    fn udp_endpoint_info(&self, endpoint: &Self::Endpoint) -> UdpEndpointInfo {
        endpoint.info()
    }

    fn send_to_udp_endpoint(
        &mut self,
        endpoint: &mut Self::Endpoint,
        batch: &mut [TxSlot<UdpEndpointTransmit<PacketBuf>>],
    ) -> Result<usize, SendError> {
        send_generic_udp_endpoint(self, endpoint, batch)
    }

    fn recv(
        &mut self,
        out: &mut RecvBatch<UdpReceive<PacketBufMut, Self::RecvMeta>>,
    ) -> Result<usize, Error> {
        if self.fail_recv {
            return Err(Error::Truncated);
        }
        let mut received = 0;
        while out.remaining() > 0 {
            let Some(item) = self.incoming.pop_front() else {
                break;
            };
            out.push(item).map_err(|_| Error::BatchFull)?;
            received += 1;
        }
        Ok(received)
    }

    fn notify_tx(&mut self) -> Result<(), Error> {
        if self.fail_notify {
            return Err(Error::OversizeForMtu);
        }
        self.notified += 1;
        Ok(())
    }

    fn drain_tx_completions(&mut self) -> Result<usize, Error> {
        if self.fail_reclaim {
            return Err(Error::Truncated);
        }
        let completed = self.completed;
        self.completed = 0;
        Ok(completed)
    }
}

fn allocate(
    actor: &mut UdpActor<TestSocket>,
    socket: &mut TestSocket,
    max: usize,
) -> Vec<ActorTxBuffer<TestSocket>> {
    match actor.handle_command(socket, ActorCommand::Allocate { max }) {
        CommandOutcome::Reply(Ok(buffers)) => buffers,
        _ => panic!("an allocation is answered with buffers"),
    }
}

#[test]
fn actor_allocates_and_sends_tx_buffers() {
    let mut socket = TestSocket::new(QueueAffinity::Any);
    let mut actor = UdpActor::new(ActorConfig::default());

    actor.begin_pass();
    assert!(actor.wants_command());
    let mut buffers = allocate(&mut actor, &mut socket, 2);
    assert_eq!(buffers.len(), 2);
    buffers[0].buffer_mut().extend_from_slice(b"one").unwrap();
    buffers[1].buffer_mut().extend_from_slice(b"two").unwrap();
    assert!(!actor.is_idle());

    let meta = ActorTxMeta::new(address(9));
    assert!(matches!(
        actor.handle_command(&mut socket, ActorCommand::SendBuffers { buffers, meta }),
        CommandOutcome::Queued
    ));
    assert!(actor.is_idle());
    assert!(matches!(
        actor.handle_command(&mut socket, ActorCommand::Shutdown),
        CommandOutcome::Shutdown
    ));
    assert!(!actor.wants_command());
    assert!(actor.run_io(&mut socket).unwrap().is_none());
    assert_eq!(actor.end_pass(None), ActorWait::Finish);
    let sent: Vec<_> = socket.sent.iter().map(|(bytes, _)| bytes.clone()).collect();
    assert_eq!(sent, [b"one".to_vec(), b"two".to_vec()]);
}

#[test]
fn actor_delivers_rx_batches() {
    let mut socket = TestSocket::new(QueueAffinity::Any);
    socket.deliver(b"hello", 12345);
    let mut actor = UdpActor::new(ActorConfig::default());

    actor.begin_pass();
    let mut batch = actor.run_io(&mut socket).unwrap().unwrap();
    assert_eq!(batch.len(), 1);
    let packet = &batch.as_slice()[0];
    assert_eq!(packet.meta.len, 5);
    let mut bytes = [0u8; 5];
    packet.packet().read_at_exact(0, &mut bytes).unwrap();
    assert_eq!(&bytes, b"hello");
    assert_eq!(actor.end_pass(Some(true)), ActorWait::Run);
    for packet in batch.drain() {
        let (_buffer, lease) = packet.into_parts();
        assert!(actor.release(lease));
    }
    assert!(batch.is_empty());
    assert!(actor.is_idle());

    actor.begin_pass();
    assert!(actor.run_io(&mut socket).unwrap().is_none());
    assert_eq!(actor.end_pass(None), ActorWait::CommandOrReadable);
}

#[test]
fn received_packets_can_be_sent_back() {
    let mut socket = TestSocket::new(QueueAffinity::Any);
    socket.deliver(b"ping", 1);
    let mut actor = UdpActor::new(ActorConfig::default());
    actor.begin_pass();
    let mut batch = actor.run_io(&mut socket).unwrap().unwrap();
    let packets = batch
        .drain()
        .into_iter()
        .map(|packet| packet.into_transmit(address(2)))
        .collect();
    assert!(!actor.is_idle());
    assert!(matches!(
        actor.handle_command(&mut socket, ActorCommand::SendPackets { packets }),
        CommandOutcome::Queued
    ));
    assert!(actor.is_idle());
    assert!(actor.run_io(&mut socket).unwrap().is_none());
    assert_eq!(socket.sent, [(b"ping".to_vec(), address(2))]);
}

#[test]
fn a_full_socket_keeps_packets_pending() {
    let mut socket = TestSocket::new(QueueAffinity::Any);
    socket.window = 1;
    let mut actor = UdpActor::new(ActorConfig {
        pending_tx_capacity: 2,
        ..ActorConfig::default()
    });
    actor.begin_pass();
    let mut buffers = allocate(&mut actor, &mut socket, 3);
    for buffer in buffers.iter_mut() {
        buffer.buffer_mut().extend_from_slice(b"x").unwrap();
    }
    let meta = ActorTxMeta::from(address(9));
    actor.handle_command(&mut socket, ActorCommand::SendBuffers { buffers, meta });
    assert!(!actor.wants_command());
    actor.run_io(&mut socket).unwrap();
    assert_eq!(socket.sent.len(), 1);
    actor.handle_command(&mut socket, ActorCommand::Shutdown);
    assert_eq!(actor.end_pass(None), ActorWait::Run);
    actor.begin_pass();
    actor.run_io(&mut socket).unwrap();
    assert_eq!(actor.end_pass(None), ActorWait::Readable);
    socket.window = 5;
    actor.begin_pass();
    actor.run_io(&mut socket).unwrap();
    assert_eq!(actor.end_pass(None), ActorWait::Finish);
    assert_eq!(socket.sent.len(), 3);
}

/// Queues `count` packets of one byte each.
fn queue_packets(actor: &mut UdpActor<TestSocket>, socket: &mut TestSocket, count: usize) {
    let mut buffers = allocate(actor, socket, count);
    for buffer in buffers.iter_mut() {
        buffer.buffer_mut().extend_from_slice(b"x").unwrap();
    }
    let meta = ActorTxMeta::new(address(9));
    actor.handle_command(socket, ActorCommand::SendBuffers { buffers, meta });
}

#[test]
fn an_actor_notifies_its_socket_of_what_was_sent() {
    let mut socket = TestSocket::new(QueueAffinity::Any);
    socket.window = 0;
    let mut actor = UdpActor::new(ActorConfig::default());
    actor.begin_pass();
    queue_packets(&mut actor, &mut socket, 2);
    actor.run_io(&mut socket).unwrap();
    assert_eq!((socket.sent.len(), socket.notified), (0, 0));
    socket.window = 1;
    actor.run_io(&mut socket).unwrap();
    assert_eq!((socket.sent.len(), socket.notified), (1, 1));
    socket.window = 5;
    actor.run_io(&mut socket).unwrap();
    assert_eq!((socket.sent.len(), socket.notified), (2, 2));
    actor.run_io(&mut socket).unwrap();
    assert_eq!((socket.sent.len(), socket.notified), (2, 2));
}

#[test]
fn a_failed_notification_ends_the_actor_after_the_send() {
    let mut socket = TestSocket::new(QueueAffinity::Any);
    socket.fail_notify = true;
    socket.deliver(b"unread", 1);
    let mut actor = UdpActor::new(ActorConfig::default());
    actor.begin_pass();
    queue_packets(&mut actor, &mut socket, 2);
    assert!(matches!(
        actor.run_io(&mut socket),
        Err(AsyncUdpError::Socket(Error::OversizeForMtu))
    ));
    assert_eq!((socket.sent.len(), socket.notified), (2, 0));
    assert_eq!(socket.incoming.len(), 1);
}

#[test]
fn a_failed_reclaim_ends_the_actor_after_the_notification() {
    let mut socket = TestSocket::new(QueueAffinity::Any);
    socket.fail_reclaim = true;
    socket.deliver(b"unread", 1);
    let mut actor = UdpActor::new(ActorConfig::default());
    actor.begin_pass();
    queue_packets(&mut actor, &mut socket, 1);
    assert!(matches!(
        actor.run_io(&mut socket),
        Err(AsyncUdpError::Socket(Error::Truncated))
    ));
    assert_eq!((socket.sent.len(), socket.notified), (1, 1));
    assert_eq!(socket.incoming.len(), 1);
}

#[test]
fn an_abandoned_actor_finishes() {
    let mut socket = TestSocket::new(QueueAffinity::Any);
    socket.deliver(b"late", 1);
    let mut actor = UdpActor::new(ActorConfig::default());
    actor.commands_disconnected();
    actor.begin_pass();
    assert!(actor.run_io(&mut socket).unwrap().is_some());
    assert_eq!(actor.end_pass(Some(false)), ActorWait::Finish);
    assert!(!actor.wants_receive());
}

#[test]
fn socket_errors_end_the_actor() {
    let mut socket = TestSocket::new(QueueAffinity::Any);
    socket.fail_recv = true;
    let mut actor: UdpActor<TestSocket> = UdpActor::new(ActorConfig::default());
    actor.begin_pass();
    assert!(matches!(
        actor.run_io(&mut socket),
        Err(AsyncUdpError::Socket(Error::Truncated))
    ));
}

#[test]
fn sizes_are_at_least_one() {
    let config = ActorConfig {
        recv_batch_size: 0,
        command_queue_capacity: 0,
        rx_queue_capacity: 7,
        pending_tx_capacity: 0,
    }
    .normalize();
    assert_eq!(config.recv_batch_size, 1);
    assert_eq!(config.command_queue_capacity, 1);
    assert_eq!(config.rx_queue_capacity, 7);
    assert_eq!(config.pending_tx_capacity, 1);
    assert_eq!(ActorConfig::default().recv_batch_size, 64);
    assert_eq!(ActorConfig::default().command_queue_capacity, 1024);
}

#[test]
fn leases_are_counted() {
    let mut state = ActorState::new();
    let first = state.lease();
    let second = state.lease();
    assert!(!state.is_idle());
    assert!(!state.release(first));
    assert!(state.release(second));
    assert!(state.is_idle());
}

#[test]
fn a_closed_actor_gives_buffers_back() {
    let mut source: Vec<u8> = Vec::new();
    assert_eq!(after_queueing(&mut source, None, 3), Ok(3));
    assert!(source.is_empty());
    assert_eq!(
        after_queueing(&mut source, Some(vec![1, 2]), 2),
        Err(ActorClosed)
    );
    assert_eq!(source, [1, 2]);
}

#[test]
fn actor_errors_describe_themselves() {
    assert_eq!(ActorClosed.message(), "UDP actor is closed");
    assert_eq!(
        AsyncUdpError::from(ActorClosed).message(),
        "UDP actor is closed"
    );
    assert_eq!(
        AsyncUdpError::MissingWakeHandle.message(),
        "wait-driven socket did not expose a wake fd"
    );
    assert_eq!(
        AsyncUdpError::from(Error::BatchFull).message(),
        "UDP socket operation failed: receive batch is full"
    );
    assert_eq!(
        AsyncUdpError::from(SendError {
            accepted: 1,
            kind: Error::BatchFull
        })
        .message(),
        "UDP send failed: send failed after accepting 1 items: receive batch is full"
    );
    assert_eq!(
        AsyncUdpError::Io(IoError {
            kind: IoErrorKind::Other,
            text: "bad fd".to_string()
        })
        .message(),
        "async fd operation failed: bad fd"
    );
    assert_eq!(
        AsyncUdpError::Join("panicked".to_string()).message(),
        "UDP actor task failed: panicked"
    );
}
