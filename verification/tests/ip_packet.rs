//! IP packet sockets.

use std::collections::VecDeque;

use fast_socket_rs::{
    BufferLayout, BufferPool, BusyPollDriver, BusyPollIpPacketSocket, ChecksumStatus, CoreEgress,
    EgressResolver, Error, HeapBufferPool, IpPacketReceive, IpPacketRecvMeta, IpPacketSocket,
    IpPacketTransmit, IpVersion, Ipv4Addr, NeighborId, PacketBuf, PacketBufMut, PacketBufferMut,
    RecvBatch, SendError, SocketId, TxOffload, TxSlot, V4Only,
};

struct MockIpPacketSocket {
    rx_pool: HeapBufferPool,
    tx_pool: HeapBufferPool,
    driver: BusyPollDriver,
}

impl MockIpPacketSocket {
    fn new() -> Self {
        Self {
            rx_pool: HeapBufferPool::with_payload_capacity(1500),
            tx_pool: HeapBufferPool::with_payload_capacity(1500),
            driver: BusyPollDriver::new(),
        }
    }
}

impl IpPacketSocket for MockIpPacketSocket {
    type RxBuffer = PacketBufMut;
    type TxBufferMut = PacketBufMut;
    type Family = V4Only;
    type Egress = CoreEgress;
    type Driver = BusyPollDriver;
    type RecvMeta = IpPacketRecvMeta;

    fn socket_id(&self) -> SocketId {
        SocketId::new(1)
    }

    fn mtu(&self) -> usize {
        1500
    }

    fn driver(&self) -> &Self::Driver {
        &self.driver
    }

    fn driver_mut(&mut self) -> &mut Self::Driver {
        &mut self.driver
    }

    fn allocate_tx_batch(
        &mut self,
        out: &mut Vec<PacketBufMut>,
        max: usize,
    ) -> Result<usize, Error> {
        for _ in 0..max {
            out.push(self.tx_pool.allocate().ok_or(Error::WouldBlock)?);
        }
        Ok(max)
    }

    fn send(
        &mut self,
        batch: &mut [TxSlot<IpPacketTransmit<PacketBuf, Self::Egress, Self::Family>>],
    ) -> Result<usize, SendError> {
        for (accepted, slot) in batch.iter_mut().enumerate() {
            if slot.take().is_none() {
                return Err(SendError {
                    accepted,
                    kind: Error::InvalidBatch,
                });
            }
        }
        Ok(batch.len())
    }

    fn recv(
        &mut self,
        out: &mut RecvBatch<IpPacketReceive<PacketBufMut, Self::RecvMeta>>,
    ) -> Result<usize, Error> {
        let packet = self.rx_pool.allocate().ok_or(Error::WouldBlock)?;
        out.push(IpPacketReceive::new(
            packet,
            IpPacketRecvMeta {
                version: IpVersion::V4,
                len: 0,
                checksum: ChecksumStatus::NotChecked,
            },
        ))
        .map_err(|_| Error::BatchFull)?;
        Ok(1)
    }

    fn drain_tx_completions(&mut self) -> Result<usize, Error> {
        Ok(0)
    }
}

fn assert_busy_poll_ip_packet_socket<S: BusyPollIpPacketSocket>(_socket: &S) {}

#[test]
fn ip_packet_socket_trait_surface_accepts_mock_socket() {
    let mut socket = MockIpPacketSocket::new();
    assert_busy_poll_ip_packet_socket(&socket);

    let packet = PacketBuf::copy_from_slice(&[0x45, 0, 0, 20]);
    let mut tx = [TxSlot::Ready(IpPacketTransmit::new(
        packet,
        CoreEgress::Neighbor(NeighborId::new(1)),
    ))];
    assert_eq!(socket.send(&mut tx).unwrap(), 1);
    assert!(tx[0].is_taken());

    let mut rx = RecvBatch::with_capacity(1);
    assert_eq!(socket.recv(&mut rx).unwrap(), 1);
    assert_eq!(rx.as_slice()[0].meta.version, IpVersion::V4);
}

#[test]
fn tx_offload_flags_compose_without_dependency() {
    let flags = TxOffload::cksum_ip() | TxOffload::cksum_l4();
    assert!(flags.contains(TxOffload::cksum_ip()));
    assert!(flags.contains(TxOffload::cksum_l4()));
}

#[test]
fn no_offload_contains_no_flag() {
    assert!(!TxOffload::none().contains(TxOffload::cksum_ip()));
    assert!(!TxOffload::cksum_ip().contains(TxOffload::cksum_l4()));
}

#[test]
fn ip_send_all_stops_at_a_failure_and_counts() {
    let mut socket = MockIpPacketSocket::new();
    let mut tx = [
        TxSlot::Ready(IpPacketTransmit::new(
            PacketBuf::copy_from_slice(&[1]),
            CoreEgress::Default,
        )),
        TxSlot::Taken,
    ];
    let error = socket.send_all(&mut tx, 3).unwrap_err();
    assert_eq!(error.accepted, 1);
    assert!(matches!(error.kind, Error::InvalidBatch));
    assert!(tx[0].is_taken());
}

const IPV4_HEADER_LEN: usize = 20;

struct CaptureIpPacketSocket {
    driver: BusyPollDriver,
    recv: VecDeque<IpPacketReceive<PacketBufMut, IpPacketRecvMeta>>,
    sent: Vec<IpPacketTransmit<PacketBuf, (), V4Only>>,
    tx_pool: HeapBufferPool,
}

impl CaptureIpPacketSocket {
    fn new() -> Self {
        Self {
            driver: BusyPollDriver::new(),
            recv: VecDeque::new(),
            sent: Vec::new(),
            tx_pool: HeapBufferPool::new(BufferLayout::with_headroom_and_tailroom(2048, 64, 64)),
        }
    }

    fn push_ipv4(&mut self, packet: PacketBufMut) {
        self.recv.push_back(IpPacketReceive::new(
            packet,
            IpPacketRecvMeta {
                version: IpVersion::V4,
                len: 0,
                checksum: ChecksumStatus::NotChecked,
            },
        ));
    }
}

impl IpPacketSocket for CaptureIpPacketSocket {
    type RxBuffer = PacketBufMut;
    type TxBufferMut = PacketBufMut;
    type Family = V4Only;
    type Egress = ();
    type Driver = BusyPollDriver;
    type RecvMeta = IpPacketRecvMeta;

    fn socket_id(&self) -> SocketId {
        SocketId::new(0)
    }

    fn mtu(&self) -> usize {
        1500
    }

    fn driver(&self) -> &Self::Driver {
        &self.driver
    }

    fn driver_mut(&mut self) -> &mut Self::Driver {
        &mut self.driver
    }

    fn allocate_tx_batch(
        &mut self,
        out: &mut Vec<PacketBufMut>,
        max: usize,
    ) -> Result<usize, Error> {
        for _ in 0..max {
            out.push(self.tx_pool.allocate().ok_or(Error::WouldBlock)?);
        }
        Ok(max)
    }

    fn send(
        &mut self,
        batch: &mut [TxSlot<IpPacketTransmit<PacketBuf, Self::Egress, Self::Family>>],
    ) -> Result<usize, SendError> {
        let mut accepted = 0;
        for slot in batch.iter_mut() {
            let Some(tx) = slot.take() else {
                return Err(SendError {
                    accepted,
                    kind: Error::InvalidBatch,
                });
            };
            self.sent.push(tx);
            accepted += 1;
        }
        Ok(accepted)
    }

    fn recv(
        &mut self,
        out: &mut RecvBatch<IpPacketReceive<PacketBufMut, Self::RecvMeta>>,
    ) -> Result<usize, Error> {
        let mut delivered = 0;
        while out.remaining() > 0 {
            let Some(packet) = self.recv.pop_front() else {
                break;
            };
            out.push(packet).map_err(|_| Error::BatchFull)?;
            delivered += 1;
        }
        Ok(delivered)
    }

    fn drain_tx_completions(&mut self) -> Result<usize, Error> {
        Ok(0)
    }
}

#[derive(Clone, Copy, Debug)]
struct StaticResolver;

impl EgressResolver<V4Only, ()> for StaticResolver {
    fn resolve_egress(&self, _destination: Ipv4Addr) -> Option<()> {
        Some(())
    }
}

fn ipv4_packet(payload: &[u8], ttl: u8) -> Vec<u8> {
    let total_len = IPV4_HEADER_LEN + payload.len();
    let mut packet = vec![0u8; total_len];
    packet[0] = 0x45;
    packet[2..4].copy_from_slice(&(total_len as u16).to_be_bytes());
    packet[8] = ttl;
    packet[9] = 17;
    packet[12..16].copy_from_slice(&[192, 0, 2, 1]);
    packet[16..20].copy_from_slice(&[198, 51, 100, 1]);
    packet[IPV4_HEADER_LEN..].copy_from_slice(payload);
    packet
}

fn route_one<R>(
    socket: &mut CaptureIpPacketSocket,
    resolver: &R,
    dst: Ipv4Addr,
) -> Result<usize, Error>
where
    R: EgressResolver<V4Only, ()>,
{
    let mut rx = RecvBatch::with_capacity(1);
    if socket.recv(&mut rx)? == 0 {
        return Ok(0);
    }
    let mut item = rx.drain().into_iter().next().expect("one received item");
    item.packet.as_mut_slice()[8] -= 1;
    resolver.resolve_egress(dst).ok_or(Error::NoEgressRoute)?;
    let mut tx = [TxSlot::Ready(IpPacketTransmit::new(
        item.packet.freeze(),
        (),
    ))];
    socket
        .send(&mut tx)
        .map_err(|error| error.kind)
        .map(|accepted| accepted.min(1))
}

#[test]
fn direct_ip_packet_routing_workload_fits_core_traits() {
    let mut ip_socket = CaptureIpPacketSocket::new();
    ip_socket.push_ipv4(PacketBufMut::copy_from_slice(&ipv4_packet(b"route me", 64)));

    assert_eq!(
        route_one(
            &mut ip_socket,
            &StaticResolver,
            Ipv4Addr::new(198, 51, 100, 1),
        )
        .unwrap(),
        1
    );
    assert_eq!(ip_socket.sent.len(), 1);
    assert_eq!(ip_socket.sent[0].packet.as_slice()[8], 63);
    assert_eq!(
        &ip_socket.sent[0].packet.as_slice()[IPV4_HEADER_LEN..],
        b"route me"
    );
}
