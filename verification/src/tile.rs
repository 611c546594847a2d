//! Packets, classifiers and configuration of UDP network tiles.
//!
//! A tile drives a set of sockets from one worker and exchanges packets with
//! lanes: received packets are classified into lane queues, and lanes hand
//! packets back for transmit.

use vstd::prelude::*;
use vstd::string::*;

use crate::affinity::PinError;
use crate::batch::SendError;
use crate::buffer::{PacketBuffer, PacketBufferMut};
use crate::error::Error;
use crate::io::IoError;
use crate::net::{IpAddr, SocketAddr};
use crate::num::NonZeroU16;
use crate::sys::QueueAffinity;
use crate::text::{decimal_text, push_decimal};
use crate::udp::{
    EcnCodepoint, UdpReceive, UdpRecvMeta, UdpRxBuffer, UdpSocket, UdpTransmit, UdpTxBuffer,
    UdpTxBufferMut,
};

verus! {

/// Number of per-lane RX/TX queue slots used by default.
pub const DEFAULT_QUEUE_CAPACITY: usize = 1024;

/// Number of packets processed per socket per receive pass by default.
pub const DEFAULT_BATCH_SIZE: usize = 64;

/// Number of preallocated transmit buffers kept for lanes by default.
pub const DEFAULT_TX_BUFFER_QUEUE_CAPACITY: usize = 1024;

/// Refill starts when the preallocated TX-buffer queue drops below this count.
pub const DEFAULT_TX_BUFFER_REFILL_WATERMARK: usize = 256;

/// Maximum TX buffers to allocate for one lane during one refill pass by default.
pub const DEFAULT_TX_BUFFER_REFILL_BATCH: usize = 256;

/// Stable index of one socket inside a tile-owned socket set.
#[derive(Clone, Copy, Debug, Eq, Hash, Ord, PartialEq, PartialOrd, Structural)]
pub struct SocketIndex(u16);

impl SocketIndex {
    /// The raw index.
    pub closed spec fn value(self) -> u16 {
        self.0
    }

    /// The index with the given raw value.
    pub closed spec fn of(value: u16) -> Self {
        Self(value)
    }

    /// Creates a socket index.
    #[must_use]
    pub fn new(value: u16) -> (r: Self)
        ensures
            r.value() == value,
            r == Self::of(value),
    {
        Self(value)
    }

    /// Returns the raw socket index.
    #[must_use]
    pub fn get(self) -> (r: u16)
        ensures
            r == self.value(),
    {
        self.0
    }
}

impl From<u16> for SocketIndex {
    fn from(value: u16) -> (r: Self) {
        Self::new(value)
    }
}

impl vstd::std_specs::convert::FromSpecImpl<u16> for SocketIndex {
    open spec fn obeys_from_spec() -> bool {
        true
    }

    open spec fn from_spec(value: u16) -> Self {
        Self::of(value)
    }
}

/// Ingress classifier output.
#[derive(Clone, Copy, Debug, Eq, PartialEq, Structural)]
pub enum IngressDecision {
    /// Deliver the packet to the lane RX queue at this index.
    Deliver(usize),
    /// Drop the packet.
    Drop,
}

/// Classifies one incoming packet into a lane RX queue or a drop decision.
pub trait IngressClassifier<M, B> {
    /// Classifies `packet` and its metadata.
    fn classify(&self, meta: &M, packet: &B, rx_queue_count: usize) -> (r: IngressDecision);
}

/// Classifier that maps every packet to RX queue 0.
#[derive(Clone, Copy, Debug, Default, Eq, PartialEq, Structural)]
pub struct AcceptAllClassifier;

impl<M, B> IngressClassifier<M, B> for AcceptAllClassifier {
    fn classify(&self, meta: &M, packet: &B, rx_queue_count: usize) -> (r: IngressDecision)
        ensures
            r == (if rx_queue_count == 0 {
                IngressDecision::Drop
            } else {
                IngressDecision::Deliver(0)
            }),
    {
        if rx_queue_count == 0 {
            IngressDecision::Drop
        } else {
            IngressDecision::Deliver(0)
        }
    }
}

/// Classifier that consistently maps a UDP source address to a lane queue.
#[derive(Clone, Copy, Debug, Default, Eq, PartialEq, Structural)]
pub struct SourceAddrClassifier;

/// The 64-bit finalizer that spreads source addresses over queues.
pub open spec fn mix64_spec(value: u64) -> u64 {
    let first = (value ^ (value >> 30)).wrapping_mul(0xbf58_476d_1ce4_e5b9);
    let second = (first ^ (first >> 27)).wrapping_mul(0x94d0_49bb_1331_11eb);
    second ^ (second >> 31)
}

/// The part of a source address that selects its queue: an IPv4 address, or the
/// first and the third 32-bit word of an IPv6 address, with the port mixed in.
pub open spec fn source_key(source: SocketAddr) -> u64 {
    let address: u64 = match source.spec_ip() {
        IpAddr::V4(addr) => addr.bits as u64,
        IpAddr::V6(addr) => (((addr.bits as int / 0x1_0000_0000_0000_0000_0000_0000)
            * 0x1_0000_0000) + ((addr.bits as int / 0x1_0000_0000) % 0x1_0000_0000)) as u64,
    };
    address ^ ((source.spec_port() as u64) << 32)
}

/// The queue that a source address is mapped to.
pub open spec fn source_queue(source: SocketAddr, rx_queue_count: usize) -> usize {
    ((mix64_spec(source_key(source)) as usize) % rx_queue_count) as usize
}

fn mix64(value: u64) -> (r: u64)
    ensures
        r == mix64_spec(value),
{
    let first: u64 = (value ^ (value >> 30)).wrapping_mul(0xbf58_476d_1ce4_e5b9);
    let second: u64 = (first ^ (first >> 27)).wrapping_mul(0x94d0_49bb_1331_11eb);
    second ^ (second >> 31)
}

impl<B> IngressClassifier<UdpRecvMeta, B> for SourceAddrClassifier {
    fn classify(
        &self,
        meta: &UdpRecvMeta,
        packet: &B,
        rx_queue_count: usize,
    ) -> (r: IngressDecision)
        ensures
            r == (if rx_queue_count == 0 {
                IngressDecision::Drop
            } else {
                IngressDecision::Deliver(source_queue(meta.source, rx_queue_count))
            }),
    {
        if rx_queue_count == 0 {
            return IngressDecision::Drop;
        }
        let address: u64 = match meta.source.ip() {
            IpAddr::V4(addr) => addr.bits as u64,
            IpAddr::V6(addr) => {
                let high: u128 = addr.bits / 0x1_0000_0000_0000_0000_0000_0000;
                let low: u128 = (addr.bits / 0x1_0000_0000) % 0x1_0000_0000;
                high as u64 * 0x1_0000_0000 + low as u64
            },
        };
        let key: u64 = address ^ ((meta.source.port() as u64) << 32);
        IngressDecision::Deliver((mix64(key) as usize) % rx_queue_count)
    }
}

/// A source address always selects the same queue, and that queue exists.
pub proof fn law_source_queue_is_in_range(source: SocketAddr, rx_queue_count: usize)
    requires
        rx_queue_count > 0,
    ensures
        source_queue(source, rx_queue_count) < rx_queue_count,
{
}

/// A packet delivered from a network tile to one lane RX queue.
pub struct TileRxPacket<S: UdpSocket> {
    /// Backend receive metadata.
    pub meta: S::RecvMeta,
    /// UDP payload buffer.
    pub packet: UdpRxBuffer<S>,
    /// Socket that produced this packet.
    pub source_socket: SocketIndex,
}

impl<S: UdpSocket> TileRxPacket<S> {
    /// Creates the lane's form of a packet that `source_socket` received.
    #[must_use]
    pub fn new(
        received: UdpReceive<UdpRxBuffer<S>, S::RecvMeta>,
        source_socket: SocketIndex,
    ) -> (r: Self)
        ensures
            r.meta == received.meta,
            r.packet == received.packet,
            r.source_socket == source_socket,
    {
        TileRxPacket { meta: received.meta, packet: received.packet, source_socket }
    }
}

impl<S> TileRxPacket<S> where S: UdpSocket, UdpRxBuffer<S>: PacketBufferMut<Frozen = UdpTxBuffer<S>>
 {
    /// Converts the received packet into a transmit packet that keeps the
    /// source socket index.
    #[must_use]
    pub fn into_transmit(self, destination: SocketAddr) -> (r: TileTxPacket<S>)
        requires
            self.packet.wf(),
        ensures
            r.packet.wf(),
            r.packet.bytes() == self.packet.bytes(),
            r.destination == destination,
            r.source_socket == self.source_socket,
            r.source_ip is None,
            r.source_port is None,
            r.ecn is None,
            r.gso_segment_size is None,
    {
        TileTxPacket::new(self.packet.freeze(), destination, self.source_socket)
    }
}

/// Calls [`Vec::capacity`]: how many items fit without reallocating, which is
/// never fewer than the items it holds. How many more is the allocator's choice.
#[verifier::external_body]
fn vec_capacity<T>(items: &Vec<T>) -> (r: usize)
    ensures
        r >= items@.len(),
{
    items.capacity()
}

/// A batch of packets delivered from a network tile to one lane.
pub struct TileRxBatch<S: UdpSocket> {
    packets: Vec<TileRxPacket<S>>,
}

impl<S: UdpSocket> TileRxBatch<S> {
    /// The packets in arrival order.
    pub closed spec fn view(&self) -> Seq<TileRxPacket<S>> {
        self.packets@
    }

    /// The vector that holds the packets.
    pub closed spec fn storage(&self) -> Vec<TileRxPacket<S>> {
        self.packets
    }

    /// Creates an empty receive batch with room for `capacity` packets.
    #[must_use]
    pub fn with_capacity(capacity: usize) -> (r: Self)
        ensures
            r@ == Seq::<TileRxPacket<S>>::empty(),
    {
        TileRxBatch { packets: Vec::with_capacity(capacity) }
    }

    /// Returns the number of packets in this batch.
    #[must_use]
    pub fn len(&self) -> (r: usize)
        ensures
            r == self@.len(),
    {
        self.packets.len()
    }

    /// Returns `true` when this batch has no packets.
    #[must_use]
    pub fn is_empty(&self) -> (r: bool)
        ensures
            r == (self@.len() == 0),
    {
        self.packets.len() == 0
    }

    /// [`Vec::capacity`] may report `capacity` for the storage.
    pub closed spec fn may_report(&self, capacity: usize) -> bool {
        call_ensures(vec_capacity::<TileRxPacket<S>>, (&self.packets,), capacity)
    }

    /// Returns the currently allocated packet capacity.
    #[must_use]
    pub fn capacity(&self) -> (r: usize)
        ensures
            r >= self@.len(),
            self.may_report(r),
    {
        vec_capacity(&self.packets)
    }

    /// Reserves capacity for at least `additional` more packets: the storage is what
    /// [`Vec::reserve`] makes of it.
    pub fn reserve(&mut self, additional: usize)
        ensures
            final(self)@ == old(self)@,
            exists|packets: &mut Vec<TileRxPacket<S>>|
                {
                    &&& #[trigger] call_ensures(
                        Vec::<TileRxPacket<S>>::reserve,
                        (packets, additional),
                        (),
                    )
                    &&& *packets == old(self).storage()
                    &&& *final(packets) == final(self).storage()
                },
    {
        self.packets.reserve(additional);
    }

    /// Adds one packet to the end of this batch.
    pub fn push(&mut self, packet: TileRxPacket<S>)
        ensures
            final(self)@ == old(self)@.push(packet),
    {
        self.packets.push(packet);
    }

    /// Removes the last packet from this batch.
    pub fn pop(&mut self) -> (r: Option<TileRxPacket<S>>)
        ensures
            if old(self)@.len() > 0 {
                &&& r == Some(old(self)@.last())
                &&& final(self)@ == old(self)@.drop_last()
            } else {
                &&& r is None
                &&& final(self)@ == old(self)@
            },
    {
        self.packets.pop()
    }

    /// Drops every packet in this batch while keeping the allocation.
    pub fn clear(&mut self)
        ensures
            final(self)@ == Seq::<TileRxPacket<S>>::empty(),
    {
        self.packets.clear();
    }

    /// Takes every packet out of this batch, oldest first.
    pub fn drain(&mut self) -> (r: Vec<TileRxPacket<S>>)
        ensures
            r@ == old(self)@,
            final(self)@ == Seq::<TileRxPacket<S>>::empty(),
    {
        let mut packets: Vec<TileRxPacket<S>> = Vec::new();
        core::mem::swap(&mut self.packets, &mut packets);
        packets
    }
}

/// A mutable transmit buffer allocated by a tile-owned socket.
pub struct TileTxBuffer<S: UdpSocket> {
    source_socket: SocketIndex,
    buffer: UdpTxBufferMut<S>,
}

impl<S: UdpSocket> TileTxBuffer<S> {
    /// The socket that allocated this buffer.
    pub closed spec fn source_spec(&self) -> SocketIndex {
        self.source_socket
    }

    /// The packet buffer.
    pub closed spec fn buffer_spec(&self) -> UdpTxBufferMut<S> {
        self.buffer
    }

    /// Creates a tile-owned transmit buffer wrapper.
    #[must_use]
    pub fn new(source_socket: SocketIndex, buffer: UdpTxBufferMut<S>) -> (r: Self)
        ensures
            r.source_spec() == source_socket,
            r.buffer_spec() == buffer,
    {
        TileTxBuffer { source_socket, buffer }
    }

    /// Socket that allocated this buffer.
    #[must_use]
    pub fn source_socket(&self) -> (r: SocketIndex)
        ensures
            r == self.source_spec(),
    {
        self.source_socket
    }

    /// Borrows the mutable packet buffer.
    #[must_use]
    pub fn buffer(&self) -> (r: &UdpTxBufferMut<S>)
        ensures
            *r == self.buffer_spec(),
    {
        &self.buffer
    }

    /// Mutably borrows the packet buffer.
    #[must_use]
    pub fn buffer_mut(&mut self) -> (r: &mut UdpTxBufferMut<S>)
        ensures
            *r == old(self).buffer_spec(),
            final(self).buffer_spec() == *final(r),
            final(self).source_spec() == old(self).source_spec(),
    {
        &mut self.buffer
    }

    /// Freezes this buffer into a tile transmit packet.
    #[must_use]
    pub fn freeze(self, destination: SocketAddr) -> (r: TileTxPacket<S>)
        requires
            self.buffer_spec().wf(),
        ensures
            r.packet.wf(),
            r.packet.bytes() == self.buffer_spec().bytes(),
            r.destination == destination,
            r.source_socket == self.source_spec(),
            r.source_ip is None,
            r.source_port is None,
            r.ecn is None,
            r.gso_segment_size is None,
    {
        TileTxPacket::new(self.buffer.freeze(), destination, self.source_socket)
    }

    /// Splits this wrapper into its socket index and raw buffer.
    #[must_use]
    pub fn into_parts(self) -> (r: (SocketIndex, UdpTxBufferMut<S>))
        ensures
            r.0 == self.source_spec(),
            r.1 == self.buffer_spec(),
    {
        (self.source_socket, self.buffer)
    }
}

/// Addressing and offload requests for packets that a lane transmits.
#[derive(Clone, Copy, Debug, Eq, PartialEq, Structural)]
pub struct TileTxMeta {
    /// Remote destination address.
    pub destination: SocketAddr,
    /// Optional source IP selection.
    pub source_ip: Option<IpAddr>,
    /// Optional source UDP port selection.
    pub source_port: Option<u16>,
    /// Optional ECN codepoint.
    pub ecn: Option<EcnCodepoint>,
    /// Optional UDP segmentation size.
    pub gso_segment_size: Option<NonZeroU16>,
}

impl TileTxMeta {
    /// Creates metadata for `destination` without further requests.
    #[must_use]
    pub fn new(destination: SocketAddr) -> (r: Self)
        ensures
            r == (TileTxMeta {
                destination,
                source_ip: None,
                source_port: None,
                ecn: None,
                gso_segment_size: None,
            }),
    {
        TileTxMeta {
            destination,
            source_ip: None,
            source_port: None,
            ecn: None,
            gso_segment_size: None,
        }
    }
}

/// A packet queued by a lane for network transmit.
pub struct TileTxPacket<S: UdpSocket> {
    /// UDP payload buffer.
    pub packet: UdpTxBuffer<S>,
    /// Remote destination address.
    pub destination: SocketAddr,
    /// Socket that produced or allocated the packet's backing buffer.
    ///
    /// Backends that cannot transfer buffers between sockets transmit through
    /// this socket. Backends with shareable memory may choose another one.
    pub source_socket: SocketIndex,
    /// Optional source IP selection.
    pub source_ip: Option<IpAddr>,
    /// Optional source UDP port selection.
    pub source_port: Option<u16>,
    /// Optional ECN codepoint.
    pub ecn: Option<EcnCodepoint>,
    /// Optional UDP segmentation size.
    pub gso_segment_size: Option<NonZeroU16>,
}

impl<S: UdpSocket> TileTxPacket<S> {
    /// Creates a tile transmit packet for `destination`.
    #[must_use]
    pub fn new(
        packet: UdpTxBuffer<S>,
        destination: SocketAddr,
        source_socket: SocketIndex,
    ) -> (r: Self)
        ensures
            r.packet == packet,
            r.destination == destination,
            r.source_socket == source_socket,
            r.source_ip is None,
            r.source_port is None,
            r.ecn is None,
            r.gso_segment_size is None,
    {
        TileTxPacket {
            packet,
            destination,
            source_socket,
            source_ip: None,
            source_port: None,
            ecn: None,
            gso_segment_size: None,
        }
    }

    /// The core UDP transmit item of this packet.
    pub open spec fn transmit(self) -> UdpTransmit<UdpTxBuffer<S>> {
        UdpTransmit {
            packet: self.packet,
            destination: self.destination,
            source_ip: self.source_ip,
            source_port: self.source_port,
            ecn: self.ecn,
            gso_segment_size: self.gso_segment_size,
        }
    }

    /// Converts this tile packet into the core UDP transmit item.
    #[must_use]
    pub fn into_udp_transmit(self) -> (r: UdpTransmit<UdpTxBuffer<S>>)
        ensures
            r == self.transmit(),
    {
        UdpTransmit {
            packet: self.packet,
            destination: self.destination,
            source_ip: self.source_ip,
            source_port: self.source_port,
            ecn: self.ecn,
            gso_segment_size: self.gso_segment_size,
        }
    }
}

/// A batch of packets queued by a lane for network transmit.
pub struct TileTxBatch<S: UdpSocket> {
    packets: Vec<TileTxPacket<S>>,
}

impl<S: UdpSocket> TileTxBatch<S> {
    /// The packets in submission order.
    pub closed spec fn view(&self) -> Seq<TileTxPacket<S>> {
        self.packets@
    }

    /// The vector that holds the packets.
    pub closed spec fn storage(&self) -> Vec<TileTxPacket<S>> {
        self.packets
    }

    /// Creates an empty transmit batch with room for `capacity` packets.
    #[must_use]
    pub fn with_capacity(capacity: usize) -> (r: Self)
        ensures
            r@ == Seq::<TileTxPacket<S>>::empty(),
    {
        TileTxBatch { packets: Vec::with_capacity(capacity) }
    }

    /// Returns the number of packets in this batch.
    #[must_use]
    pub fn len(&self) -> (r: usize)
        ensures
            r == self@.len(),
    {
        self.packets.len()
    }

    /// Returns `true` when this batch has no packets.
    #[must_use]
    pub fn is_empty(&self) -> (r: bool)
        ensures
            r == (self@.len() == 0),
    {
        self.packets.len() == 0
    }

    /// [`Vec::capacity`] may report `capacity` for the storage.
    pub closed spec fn may_report(&self, capacity: usize) -> bool {
        call_ensures(vec_capacity::<TileTxPacket<S>>, (&self.packets,), capacity)
    }

    /// Returns the currently allocated packet capacity.
    #[must_use]
    pub fn capacity(&self) -> (r: usize)
        ensures
            r >= self@.len(),
            self.may_report(r),
    {
        vec_capacity(&self.packets)
    }

    /// Reserves capacity for at least `additional` more packets: the storage is what
    /// [`Vec::reserve`] makes of it.
    pub fn reserve(&mut self, additional: usize)
        ensures
            final(self)@ == old(self)@,
            exists|packets: &mut Vec<TileTxPacket<S>>|
                {
                    &&& #[trigger] call_ensures(
                        Vec::<TileTxPacket<S>>::reserve,
                        (packets, additional),
                        (),
                    )
                    &&& *packets == old(self).storage()
                    &&& *final(packets) == final(self).storage()
                },
    {
        self.packets.reserve(additional);
    }

    /// Adds one packet to the end of this batch.
    pub fn push(&mut self, packet: TileTxPacket<S>)
        ensures
            final(self)@ == old(self)@.push(packet),
    {
        self.packets.push(packet);
    }

    /// Removes the last packet from this batch.
    pub fn pop(&mut self) -> (r: Option<TileTxPacket<S>>)
        ensures
            if old(self)@.len() > 0 {
                &&& r == Some(old(self)@.last())
                &&& final(self)@ == old(self)@.drop_last()
            } else {
                &&& r is None
                &&& final(self)@ == old(self)@
            },
    {
        self.packets.pop()
    }

    /// Drops every packet in this batch while keeping the allocation.
    pub fn clear(&mut self)
        ensures
            final(self)@ == Seq::<TileTxPacket<S>>::empty(),
    {
        self.packets.clear();
    }

    /// Takes every packet out of this batch, oldest first.
    pub fn drain(&mut self) -> (r: Vec<TileTxPacket<S>>)
        ensures
            r@ == old(self)@,
            final(self)@ == Seq::<TileTxPacket<S>>::empty(),
    {
        let mut packets: Vec<TileTxPacket<S>> = Vec::new();
        core::mem::swap(&mut self.packets, &mut packets);
        packets
    }
}

/// Result of checking a tile socket set's worker affinity.
#[derive(Clone, Copy, Debug, Eq, PartialEq, Structural)]
pub enum TileAffinity {
    /// No socket reported a concrete affinity.
    Any,
    /// All concrete socket affinities were compatible with this affinity.
    Affinity(QueueAffinity),
}

impl TileAffinity {
    /// Converts this result to a queue-affinity hint.
    #[must_use]
    pub fn as_queue_affinity(self) -> (r: QueueAffinity)
        ensures
            r == (match self {
                TileAffinity::Any => QueueAffinity::Any,
                TileAffinity::Affinity(affinity) => affinity,
            }),
    {
        match self {
            TileAffinity::Any => QueueAffinity::Any,
            TileAffinity::Affinity(affinity) => affinity,
        }
    }
}

/// Runtime configuration shared by tile implementations.
#[derive(Clone, Copy, Debug, Eq, PartialEq, Structural)]
pub struct TileConfig {
    /// Target packet capacity for each per-lane RX and TX queue.
    pub queue_capacity: usize,
    /// Receive batch size used for each socket pass.
    pub batch_size: usize,
    /// Capacity of each per-lane preallocated TX-buffer queue.
    pub tx_buffer_queue_capacity: usize,
    /// Refill threshold for each per-lane preallocated TX-buffer queue.
    pub tx_buffer_refill_watermark: usize,
    /// Maximum TX buffers allocated during one refill pass.
    pub tx_buffer_refill_batch: usize,
    /// Whether the tile pins its worker thread when sockets report a concrete
    /// compatible affinity.
    pub pin_thread: bool,
}

impl TileConfig {
    /// The default configuration.
    pub open spec fn default_spec() -> Self {
        TileConfig {
            queue_capacity: 1024,
            batch_size: 64,
            tx_buffer_queue_capacity: 1024,
            tx_buffer_refill_watermark: 256,
            tx_buffer_refill_batch: 256,
            pin_thread: true,
        }
    }
}

impl Default for TileConfig {
    fn default() -> (r: Self)
        ensures
            r == TileConfig::default_spec(),
    {
        TileConfig {
            queue_capacity: DEFAULT_QUEUE_CAPACITY,
            batch_size: DEFAULT_BATCH_SIZE,
            tx_buffer_queue_capacity: DEFAULT_TX_BUFFER_QUEUE_CAPACITY,
            tx_buffer_refill_watermark: DEFAULT_TX_BUFFER_REFILL_WATERMARK,
            tx_buffer_refill_batch: DEFAULT_TX_BUFFER_REFILL_BATCH,
            pin_thread: true,
        }
    }
}

/// Tile runtime statistics.
#[derive(Clone, Copy, Debug, Eq, PartialEq, Structural)]
pub struct TileStats {
    /// Packets dropped because the ingress classifier returned
    /// [`IngressDecision::Drop`].
    pub classifier_drops: u64,
    /// Packets dropped because the selected RX queue was invalid or full.
    pub rx_queue_drops: u64,
    /// Transmit packets dropped because they referenced an invalid source socket.
    pub tx_drops: u64,
    /// Packets that sockets accepted for transmit.
    pub tx_packets: u64,
}

impl Default for TileStats {
    fn default() -> (r: Self)
        ensures
            r == (TileStats {
                classifier_drops: 0,
                rx_queue_drops: 0,
                tx_drops: 0,
                tx_packets: 0,
            }),
    {
        TileStats { classifier_drops: 0, rx_queue_drops: 0, tx_drops: 0, tx_packets: 0 }
    }
}

/// Errors returned by tile runtimes.
#[derive(Debug)]
pub enum TileError {
    /// The tile was started more than once.
    AlreadyStarted,
    /// The socket factory panicked while it held its lock.
    FactoryPoisoned,
    /// The socket set contains no sockets.
    EmptySocketSet,
    /// The socket set contains more sockets than [`SocketIndex`] can name.
    TooManySockets {
        /// Number of sockets returned by the factory.
        count: usize,
    },
    /// Sockets in one tile reported conflicting concrete affinities.
    IncompatibleAffinity {
        /// First concrete affinity observed.
        expected: QueueAffinity,
        /// Conflicting concrete affinity.
        found: QueueAffinity,
    },
    /// A socket or lane that must be waited on has no wake handle.
    MissingWakeHandle,
    /// Thread pinning failed.
    Pin(PinError),
    /// Worker thread spawning failed.
    Spawn(IoError),
    /// Waiting for work failed.
    Wait(IoError),
    /// A socket operation failed.
    Socket(Error),
    /// A send operation failed after accepting part of a batch.
    Send(SendError),
}

/// The text of an affinity hint.
pub open spec fn affinity_text(affinity: QueueAffinity) -> Seq<char> {
    match affinity {
        QueueAffinity::Any => "Any"@,
        QueueAffinity::Core(cpu) => "Core("@ + decimal_text(cpu as nat) + ")"@,
        QueueAffinity::Mask(mask) => "Mask("@ + decimal_text(mask as nat) + ")"@,
    }
}

fn affinity_message(affinity: QueueAffinity) -> (r: String)
    ensures
        r@ == affinity_text(affinity),
{
    match affinity {
        QueueAffinity::Any => "Any".to_owned(),
        QueueAffinity::Core(cpu) => {
            let mut out = "Core(".to_owned();
            push_decimal(&mut out, cpu as u64);
            out.append(")");
            out
        },
        QueueAffinity::Mask(mask) => {
            let mut out = "Mask(".to_owned();
            push_decimal(&mut out, mask);
            out.append(")");
            out
        },
    }
}

impl TileError {
    /// The text that describes this error.
    pub open spec fn message_text(self) -> Seq<char> {
        match self {
            TileError::AlreadyStarted => "UDP tile was already started"@,
            TileError::FactoryPoisoned => "UDP tile socket factory mutex was poisoned"@,
            TileError::EmptySocketSet => "UDP tile socket factory returned no sockets"@,
            TileError::TooManySockets { count } => {
                "UDP tile has too many sockets for SocketIndex: "@ + decimal_text(count as nat)
            },
            TileError::IncompatibleAffinity { expected, found } => {
                "UDP tile sockets reported incompatible affinities: expected "@ + affinity_text(
                    expected,
                ) + ", found "@ + affinity_text(found)
            },
            TileError::MissingWakeHandle => "UDP tile wake handle is missing"@,
            TileError::Pin(error) => "UDP tile thread pinning failed: "@ + error.message_text(),
            TileError::Spawn(error) => "UDP tile worker spawn failed: "@ + error.text@,
            TileError::Wait(error) => "UDP tile wait failed: "@ + error.text@,
            TileError::Socket(error) => "UDP tile socket operation failed: "@
                + error.message_text(),
            TileError::Send(error) => "UDP tile send failed: "@ + error.message_text(),
        }
    }

    /// Renders this error for people.
    pub fn message(&self) -> (r: String)
        ensures
            r@ == self.message_text(),
    {
        match self {
            TileError::AlreadyStarted => "UDP tile was already started".to_owned(),
            TileError::FactoryPoisoned => "UDP tile socket factory mutex was poisoned".to_owned(),
            TileError::EmptySocketSet => "UDP tile socket factory returned no sockets".to_owned(),
            TileError::TooManySockets { count } => {
                let mut out = "UDP tile has too many sockets for SocketIndex: ".to_owned();
                push_decimal(&mut out, *count as u64);
                out
            },
            TileError::IncompatibleAffinity { expected, found } => {
                let mut out =
                    "UDP tile sockets reported incompatible affinities: expected ".to_owned();
                out.append(affinity_message(*expected).as_str());
                out.append(", found ");
                out.append(affinity_message(*found).as_str());
                out
            },
            TileError::MissingWakeHandle => "UDP tile wake handle is missing".to_owned(),
            TileError::Pin(error) => {
                "UDP tile thread pinning failed: ".to_owned().concat(error.message().as_str())
            },
            TileError::Spawn(error) => {
                "UDP tile worker spawn failed: ".to_owned().concat(error.text.as_str())
            },
            TileError::Wait(error) => {
                "UDP tile wait failed: ".to_owned().concat(error.text.as_str())
            },
            TileError::Socket(error) => {
                "UDP tile socket operation failed: ".to_owned().concat(error.message().as_str())
            },
            TileError::Send(error) => {
                "UDP tile send failed: ".to_owned().concat(error.message().as_str())
            },
        }
    }
}

impl From<Error> for TileError {
    fn from(value: Error) -> (r: Self) {
        TileError::Socket(value)
    }
}

impl vstd::std_specs::convert::FromSpecImpl<Error> for TileError {
    open spec fn obeys_from_spec() -> bool {
        true
    }

    open spec fn from_spec(value: Error) -> Self {
        TileError::Socket(value)
    }
}

/// What the affinity hints seen so far select, or the first conflict among them.
pub open spec fn combined_affinity(hints: Seq<QueueAffinity>) -> Result<TileAffinity, TileError>
    decreases hints.len(),
{
    if hints.len() == 0 {
        Ok(TileAffinity::Any)
    } else {
        match combined_affinity(hints.drop_last()) {
            Err(error) => Err(error),
            Ok(selected) => if hints.last() == QueueAffinity::Any {
                Ok(selected)
            } else {
                match selected {
                    TileAffinity::Any => Ok(TileAffinity::Affinity(hints.last())),
                    TileAffinity::Affinity(expected) => if expected == hints.last() {
                        Ok(selected)
                    } else {
                        Err(
                            TileError::IncompatibleAffinity { expected, found: hints.last() },
                        )
                    },
                }
            },
        }
    }
}

/// Validates that affinity hints are compatible: all concrete ones agree.
pub fn combine_affinities(hints: &Vec<QueueAffinity>) -> (r: Result<TileAffinity, TileError>)
    ensures
        r == combined_affinity(hints@),
{
    let mut selected = TileAffinity::Any;
    let mut at: usize = 0;
    while at < hints.len()
        invariant
            at <= hints@.len(),
            combined_affinity(hints@.take(at as int)) == Ok::<TileAffinity, TileError>(selected),
        decreases hints@.len() - at,
    {
        let affinity = hints[at];
        proof {
            assert(hints@.take(at as int + 1).drop_last() =~= hints@.take(at as int));
        }
        if affinity != QueueAffinity::Any {
            match selected {
                TileAffinity::Any => {
                    selected = TileAffinity::Affinity(affinity);
                },
                TileAffinity::Affinity(expected) => {
                    if expected != affinity {
                        proof {
                            lemma_conflict_stays(hints@, at as int + 1);
                        }
                        return Err(
                            TileError::IncompatibleAffinity { expected, found: affinity },
                        );
                    }
                },
            }
        }
        at = at + 1;
    }
    proof {
        assert(hints@.take(hints@.len() as int) =~= hints@);
    }
    Ok(selected)
}

proof fn lemma_conflict_stays(hints: Seq<QueueAffinity>, at: int)
    requires
        0 <= at <= hints.len(),
        combined_affinity(hints.take(at)) is Err,
    ensures
        combined_affinity(hints) == combined_affinity(hints.take(at)),
    decreases hints.len() - at,
{
    if at < hints.len() {
        assert(hints.take(at + 1).drop_last() =~= hints.take(at));
        lemma_conflict_stays(hints, at + 1);
    } else {
        assert(hints.take(at) =~= hints);
    }
}

/// Hints are compatible exactly when all concrete ones are equal.
pub proof fn law_affinities_agree(hints: Seq<QueueAffinity>)
    ensures
        match combined_affinity(hints) {
            Ok(TileAffinity::Any) => forall|i: int|
                0 <= i < hints.len() ==> #[trigger] hints[i] == QueueAffinity::Any,
            Ok(TileAffinity::Affinity(selected)) => {
                &&& selected != QueueAffinity::Any
                &&& hints.contains(selected)
                &&& forall|i: int|
                    0 <= i < hints.len() ==> #[trigger] hints[i] == QueueAffinity::Any || hints[i]
                        == selected
            },
            Err(TileError::IncompatibleAffinity { expected, found }) => {
                &&& expected != found
                &&& expected != QueueAffinity::Any
                &&& found != QueueAffinity::Any
                &&& hints.contains(expected)
                &&& hints.contains(found)
            },
            Err(_) => false,
        },
    decreases hints.len(),
{
    if hints.len() > 0 {
        let shorter = hints.drop_last();
        law_affinities_agree(shorter);
        assert(hints[hints.len() - 1] == hints.last());
        assert forall|hint: QueueAffinity| shorter.contains(hint) implies hints.contains(hint) by {
            let i = choose|i: int| 0 <= i < shorter.len() && shorter[i] == hint;
            assert(hints[i] == hint);
        }
        assert forall|i: int| 0 <= i < hints.len() implies (#[trigger] hints[i]) == hints.last() || (
        i < shorter.len() && hints[i] == shorter[i]) by {}
    }
}

/// Validates that sockets in one tile have compatible worker affinity.
pub fn validate_socket_affinity<S: UdpSocket>(sockets: &[S]) -> (r: Result<TileAffinity, TileError>)
    ensures
        exists|hints: Seq<QueueAffinity>|
            {
                &&& hints.len() == sockets@.len()
                &&& forall|i: int|
                    0 <= i < hints.len() ==> call_ensures(
                        S::worker_affinity,
                        (&sockets@[i],),
                        #[trigger] hints[i],
                    )
                &&& r == #[trigger] combined_affinity(hints)
            },
{
    let mut hints: Vec<QueueAffinity> = Vec::new();
    let mut at: usize = 0;
    while at < sockets.len()
        invariant
            at <= sockets@.len(),
            hints@.len() == at,
            forall|i: int|
                0 <= i < hints@.len() ==> call_ensures(
                    S::worker_affinity,
                    (&sockets@[i],),
                    #[trigger] hints@[i],
                ),
        decreases sockets@.len() - at,
    {
        hints.push(sockets[at].worker_affinity());
        at = at + 1;
    }
    combine_affinities(&hints)
}

/// The value that is mixed to `mixed`: each step of the mixing, undone in reverse order.
pub open spec fn unmixed(mixed: u64) -> u64 {
    let second = mixed ^ (mixed >> 31) ^ (mixed >> 62);
    let shifted = second.wrapping_mul(0x3196_42b2_d24d_8ec3);
    let first = shifted ^ (shifted >> 27) ^ (shifted >> 54);
    let value = first.wrapping_mul(0x96de_1b17_3f11_9089);
    value ^ (value >> 30) ^ (value >> 60)
}

proof fn lemma_multiplication_is_undone(value: u64, factor: u64, inverse: u64, whole: int)
    requires
        factor * inverse == 0x1_0000_0000_0000_0000 * whole + 1,
    ensures
        value.wrapping_mul(factor).wrapping_mul(inverse) == value,
{
    let range: int = 0x1_0000_0000_0000_0000;
    let product = value as int * factor as int;
    let carry = product / range;
    let rest = product % range;
    assert(product == carry * range + rest) by {
        vstd::arithmetic::div_mod::lemma_fundamental_div_mod(product, range);
        assert(range * carry == carry * range) by (nonlinear_arith);
    }
    assert(rest * inverse == (value * whole - carry * inverse) * range + value)
        by (nonlinear_arith)
        requires
            value * factor == carry * range + rest,
            factor * inverse == range * whole + 1,
    ;
    vstd::arithmetic::div_mod::lemma_fundamental_div_mod_converse_mod(
        rest * inverse,
        range,
        value * whole - carry * inverse,
        value as int,
    );
    assert(value.wrapping_mul(factor) == rest);
}

/// Mixing loses nothing: the value can be had back from the mixed one, so different values
/// are mixed to different ones.
pub proof fn law_mixing_can_be_undone(value: u64, other: u64)
    ensures
        unmixed(mix64_spec(value)) == value,
        mix64_spec(value) == mix64_spec(other) ==> value == other,
{
    lemma_mixing_is_undone(value);
    lemma_mixing_is_undone(other);
}

proof fn lemma_mixing_is_undone(value: u64)
    ensures
        unmixed(mix64_spec(value)) == value,
{
    let start = value ^ (value >> 30);
    let first = start.wrapping_mul(0xbf58_476d_1ce4_e5b9);
    let shifted = first ^ (first >> 27);
    let second = shifted.wrapping_mul(0x94d0_49bb_1331_11eb);
    let mixed = second ^ (second >> 31);
    assert(mixed == mix64_spec(value));
    assert(mixed ^ (mixed >> 31) ^ (mixed >> 62) == second) by (bit_vector)
        requires
            mixed == second ^ (second >> 31),
    ;
    lemma_multiplication_is_undone(
        shifted,
        0x94d0_49bb_1331_11eb,
        0x3196_42b2_d24d_8ec3,
        2077064247507883091,
    );
    assert(shifted ^ (shifted >> 27) ^ (shifted >> 54) == first) by (bit_vector)
        requires
            shifted == first ^ (first >> 27),
    ;
    lemma_multiplication_is_undone(
        start,
        0xbf58_476d_1ce4_e5b9,
        0x96de_1b17_3f11_9089,
        8125545580553827436,
    );
    assert(start ^ (start >> 30) ^ (start >> 60) == value) by (bit_vector)
        requires
            start == value ^ (value >> 30),
    ;
}

/// An IPv4 source is told apart from every other by address and port. An IPv6 source goes
/// by its first two and its fifth and sixth groups and by its port.
pub proof fn law_sources_have_their_key(source: SocketAddr)
    ensures
        source.spec_ip() matches IpAddr::V4(addr) ==> source_key(source) == addr.bits
            + source.spec_port() * 0x1_0000_0000,
        source.spec_ip() matches IpAddr::V6(addr) ==> {
            &&& source_key(source) % 0x1_0000_0000 == (addr.bits / 0x1_0000_0000) % 0x1_0000_0000
            &&& source_key(source) / 0x1_0000_0000 == ((addr.bits
                / 0x1_0000_0000_0000_0000_0000_0000) as u64) ^ (source.spec_port() as u64)
        },
{
    let port = source.spec_port() as u64;
    assert(port < 0x1_0000);
    match source.spec_ip() {
        IpAddr::V4(addr) => {
            let address = addr.bits as u64;
            assert(address ^ (port << 32) == address + port * 0x1_0000_0000) by (bit_vector)
                requires
                    address < 0x1_0000_0000,
                    port < 0x1_0000,
            ;
        },
        IpAddr::V6(addr) => {
            let high = (addr.bits / 0x1_0000_0000_0000_0000_0000_0000) as u64;
            let low = ((addr.bits / 0x1_0000_0000) % 0x1_0000_0000) as u64;
            assert(addr.bits / 0x1_0000_0000_0000_0000_0000_0000 < 0x1_0000_0000);
            let address = (high * 0x1_0000_0000 + low) as u64;
            assert(address == high * 0x1_0000_0000 + low);
            assert((address ^ (port << 32)) % 0x1_0000_0000 == low && (address ^ (port << 32))
                / 0x1_0000_0000 == high ^ port) by (bit_vector)
                requires
                    address == high * 0x1_0000_0000 + low,
                    high < 0x1_0000_0000,
                    low < 0x1_0000_0000,
                    port < 0x1_0000,
            ;
        },
    }
}

/// Packets of one source go to one queue, which exists, and which queue that is follows
/// from the mixed key of the source alone. Without a queue a packet is dropped.
pub proof fn law_sources_stay_on_their_queue<B>(
    classifier: &SourceAddrClassifier,
    meta: &UdpRecvMeta,
    packet: &B,
    other_meta: &UdpRecvMeta,
    other_packet: &B,
    rx_queue_count: usize,
    r: IngressDecision,
    other: IngressDecision,
)
    requires
        call_ensures(
            <SourceAddrClassifier as IngressClassifier<UdpRecvMeta, B>>::classify,
            (classifier, meta, packet, rx_queue_count),
            r,
        ),
        call_ensures(
            <SourceAddrClassifier as IngressClassifier<UdpRecvMeta, B>>::classify,
            (classifier, other_meta, other_packet, rx_queue_count),
            other,
        ),
    ensures
        rx_queue_count == 0 <==> r is Drop,
        r matches IngressDecision::Deliver(queue) ==> queue < rx_queue_count,
        meta.source == other_meta.source ==> r == other,
        r matches IngressDecision::Deliver(queue) ==> exists|mixed: u64| #[trigger]
            unmixed(mixed) == source_key(meta.source) && queue == (mixed as usize)
                % rx_queue_count,
{
    law_mixing_can_be_undone(source_key(meta.source), source_key(meta.source));
    let mixed = mix64_spec(source_key(meta.source));
    assert(unmixed(mixed) == source_key(meta.source));
}

/// Without classification every packet goes to the first queue, or is dropped where there
/// is none.
pub proof fn law_all_packets_go_to_the_first_queue<M, B>(
    classifier: &AcceptAllClassifier,
    meta: &M,
    packet: &B,
    rx_queue_count: usize,
    r: IngressDecision,
)
    requires
        call_ensures(
            <AcceptAllClassifier as IngressClassifier<M, B>>::classify,
            (classifier, meta, packet, rx_queue_count),
            r,
        ),
    ensures
        rx_queue_count == 0 ==> r is Drop,
        rx_queue_count > 0 ==> r == IngressDecision::Deliver(0),
{
}

/// What is transmitted is the packet as it was queued, with everything that was asked for.
pub proof fn law_tile_packets_keep_their_request<S: UdpSocket>(
    packet: TileTxPacket<S>,
    r: UdpTransmit<UdpTxBuffer<S>>,
)
    requires
        call_ensures(TileTxPacket::<S>::into_udp_transmit, (packet,), r),
    ensures
        r.packet == packet.packet,
        r.destination == packet.destination,
        r.source_ip == packet.source_ip,
        r.source_port == packet.source_port,
        r.ecn == packet.ecn,
        r.gso_segment_size == packet.gso_segment_size,
{
}

/// A frozen buffer, and a received packet that is sent on, keep their bytes and leave
/// through the socket that they came from, to the destination that was given.
pub proof fn law_frozen_packets_leave_through_their_socket<S>(
    buffer: TileTxBuffer<S>,
    received: TileRxPacket<S>,
    destination: SocketAddr,
    r: TileTxPacket<S>,
) where S: UdpSocket, UdpRxBuffer<S>: PacketBufferMut<Frozen = UdpTxBuffer<S>>
    ensures
        call_ensures(TileTxBuffer::<S>::freeze, (buffer, destination), r) ==> {
            &&& r.packet.bytes() == buffer.buffer_spec().bytes()
            &&& r.destination == destination
            &&& r.source_socket == buffer.source_spec()
        },
        call_ensures(TileRxPacket::<S>::into_transmit, (received, destination), r) ==> {
            &&& r.packet.bytes() == received.packet.bytes()
            &&& r.destination == destination
            &&& r.source_socket == received.source_socket
        },
{
}

/// The values of a configuration that nobody has set, and the counters of a tile that has
/// done nothing.
pub proof fn law_tile_defaults(config: TileConfig, stats: TileStats)
    requires
        call_ensures(TileConfig::default, (), config),
        call_ensures(TileStats::default, (), stats),
    ensures
        config.queue_capacity == 1024,
        config.batch_size == 64,
        config.tx_buffer_queue_capacity == 1024,
        config.tx_buffer_refill_watermark == 256,
        config.tx_buffer_refill_batch == 256,
        config.pin_thread,
        stats.classifier_drops == 0 && stats.rx_queue_drops == 0 && stats.tx_drops == 0
            && stats.tx_packets == 0,
{
}

/// The combined affinity is that of the first socket that has one, unless a later socket
/// has another: then the error names the two that differ first.
pub proof fn law_first_conflict_is_reported(
    hints: &Vec<QueueAffinity>,
    r: Result<TileAffinity, TileError>,
)
    requires
        call_ensures(combine_affinities, (hints,), r),
    ensures
        r == Ok::<TileAffinity, TileError>(TileAffinity::Any) ==> forall|i: int|
            0 <= i < hints@.len() ==> #[trigger] hints@[i] is Any,
        r matches Ok(TileAffinity::Affinity(selected)) ==> {
            &&& !(selected is Any)
            &&& hints@.contains(selected)
            &&& forall|i: int|
                0 <= i < hints@.len() ==> #[trigger] hints@[i] is Any || hints@[i] == selected
        },
        r matches Err(error) ==> (error matches TileError::IncompatibleAffinity {
            expected,
            found,
        } && exists|at: int|
            {
                &&& 0 <= at < hints@.len()
                &&& #[trigger] hints@[at] == found
                &&& found != expected
                &&& !(found is Any) && !(expected is Any)
                &&& hints@.take(at).contains(expected)
                &&& forall|i: int|
                    0 <= i < at ==> #[trigger] hints@[i] is Any || hints@[i] == expected
            }),
{
    lemma_first_conflict(hints@);
    law_affinities_agree(hints@);
}

proof fn lemma_first_conflict(hints: Seq<QueueAffinity>)
    ensures
        combined_affinity(hints) matches Err(error) ==> (error
            matches TileError::IncompatibleAffinity { expected, found } && exists|at: int|
            {
                &&& 0 <= at < hints.len()
                &&& #[trigger] hints[at] == found
                &&& found != expected
                &&& !(found is Any) && !(expected is Any)
                &&& hints.take(at).contains(expected)
                &&& forall|i: int|
                    0 <= i < at ==> #[trigger] hints[i] is Any || hints[i] == expected
            }),
    decreases hints.len(),
{
    if hints.len() > 0 {
        let front = hints.drop_last();
        lemma_first_conflict(front);
        law_affinities_agree(front);
        match combined_affinity(front) {
            Err(error) => {
                if let TileError::IncompatibleAffinity { expected, found } = error {
                    let at = choose|at: int|
                        {
                            &&& 0 <= at < front.len()
                            &&& #[trigger] front[at] == found
                            &&& found != expected
                            &&& !(found is Any) && !(expected is Any)
                            &&& front.take(at).contains(expected)
                            &&& forall|i: int|
                                0 <= i < at ==> #[trigger] front[i] is Any || front[i] == expected
                        };
                    assert(hints[at] == found);
                    assert(hints.take(at) =~= front.take(at));
                    assert forall|i: int| 0 <= i < at implies #[trigger] hints[i] is Any || hints[i]
                        == expected by {
                        assert(front[i] is Any || front[i] == expected);
                    }
                }
            },
            Ok(selected) => {
                let at = hints.len() - 1;
                assert(hints.take(at) =~= front);
                if let TileAffinity::Affinity(expected) = selected {
                    assert forall|i: int| 0 <= i < at implies #[trigger] hints[i] is Any || hints[i]
                        == expected by {
                        assert(front[i] is Any || front[i] == expected);
                    }
                    assert(hints[at] == hints.last());
                }
            },
        }
    }
}

/// Batches are stacks: what is pushed last is popped first, and draining gives everything in
/// the order in which it was pushed and leaves nothing.
pub proof fn law_batches_keep_their_order<S: UdpSocket>(
    received: TileRxPacket<S>,
    sent: TileTxPacket<S>,
)
    ensures
        forall|batch: &mut TileRxBatch<S>| #[trigger]
            call_ensures(TileRxBatch::<S>::push, (batch, received), ()) ==> {
                &&& final(batch)@.len() == batch@.len() + 1
                &&& final(batch)@.last() == received
                &&& final(batch)@.drop_last() == batch@
            },
        forall|batch: &mut TileRxBatch<S>, r: Option<TileRxPacket<S>>| #[trigger]
            call_ensures(TileRxBatch::<S>::pop, (batch,), r) ==> match r {
                Some(packet) => batch@ == final(batch)@.push(packet),
                None => batch@.len() == 0 && final(batch)@.len() == 0,
            },
        forall|batch: &mut TileRxBatch<S>, r: Vec<TileRxPacket<S>>| #[trigger]
            call_ensures(TileRxBatch::<S>::drain, (batch,), r) ==> r@ == batch@
                && final(batch)@.len() == 0,
        forall|batch: &mut TileTxBatch<S>| #[trigger]
            call_ensures(TileTxBatch::<S>::push, (batch, sent), ()) ==> {
                &&& final(batch)@.len() == batch@.len() + 1
                &&& final(batch)@.last() == sent
                &&& final(batch)@.drop_last() == batch@
            },
        forall|batch: &mut TileTxBatch<S>, r: Option<TileTxPacket<S>>| #[trigger]
            call_ensures(TileTxBatch::<S>::pop, (batch,), r) ==> match r {
                Some(packet) => batch@ == final(batch)@.push(packet),
                None => batch@.len() == 0 && final(batch)@.len() == 0,
            },
        forall|batch: &mut TileTxBatch<S>, r: Vec<TileTxPacket<S>>| #[trigger]
            call_ensures(TileTxBatch::<S>::drain, (batch,), r) ==> r@ == batch@
                && final(batch)@.len() == 0,
{
}

/// A worker without a concrete affinity runs anywhere, and one with a concrete affinity
/// there.
pub proof fn law_tile_affinities_are_queue_affinities(affinity: QueueAffinity, r: QueueAffinity)
    ensures
        call_ensures(TileAffinity::as_queue_affinity, (TileAffinity::Affinity(affinity),), r) ==> r
            == affinity,
        call_ensures(TileAffinity::as_queue_affinity, (TileAffinity::Any,), r) ==> r is Any,
{
}

/// What the errors of a tile say.
pub proof fn law_tile_errors_say_what_failed(
    error: &TileError,
    r: String,
    pin: &PinError,
    pin_text: String,
    socket: &Error,
    socket_text: String,
    send: &SendError,
    send_text: String,
)
    requires
        call_ensures(TileError::message, (error,), r),
        call_ensures(PinError::message, (pin,), pin_text),
        call_ensures(Error::message, (socket,), socket_text),
        call_ensures(SendError::message, (send,), send_text),
    ensures
        *error is AlreadyStarted ==> r@ == "UDP tile was already started"@,
        *error is FactoryPoisoned ==> r@ == "UDP tile socket factory mutex was poisoned"@,
        *error is EmptySocketSet ==> r@ == "UDP tile socket factory returned no sockets"@,
        *error matches TileError::TooManySockets { count } ==> r@
            == "UDP tile has too many sockets for SocketIndex: "@ + decimal_text(count as nat),
        *error is MissingWakeHandle ==> r@ == "UDP tile wake handle is missing"@,
        *error matches TileError::Spawn(io) ==> r@ == "UDP tile worker spawn failed: "@ + io.text@,
        *error matches TileError::Wait(io) ==> r@ == "UDP tile wait failed: "@ + io.text@,
        *error == TileError::Pin(*pin) ==> r@ == "UDP tile thread pinning failed: "@ + pin_text@,
        *error == TileError::Socket(*socket) ==> r@ == "UDP tile socket operation failed: "@
            + socket_text@,
        *error == TileError::Send(*send) ==> r@ == "UDP tile send failed: "@ + send_text@,
        *error matches TileError::IncompatibleAffinity {
            expected: QueueAffinity::Core(expected),
            found: QueueAffinity::Mask(found),
        } ==> r@ == "UDP tile sockets reported incompatible affinities: expected "@ + ("Core("@
            + decimal_text(expected as nat) + ")"@) + ", found "@ + ("Mask("@ + decimal_text(
            found as nat,
        ) + ")"@),
{
}

/// A transmit buffer keeps the socket that it came from and gives back what it was made of.
pub proof fn law_tile_buffers_keep_their_socket<S: UdpSocket>(
    value: u16,
    index: SocketIndex,
    buffer: UdpTxBufferMut<S>,
    made: TileTxBuffer<S>,
)
    requires
        call_ensures(SocketIndex::new, (value,), index),
        call_ensures(TileTxBuffer::<S>::new, (index, buffer), made),
    ensures
        forall|r: u16| #[trigger] call_ensures(SocketIndex::get, (index,), r) ==> r == value,
        made.source_spec() == index,
        made.buffer_spec() == buffer,
        forall|r: SocketIndex| #[trigger]
            call_ensures(TileTxBuffer::<S>::source_socket, (&made,), r) ==> r == index,
        forall|r: &UdpTxBufferMut<S>| #[trigger]
            call_ensures(TileTxBuffer::<S>::buffer, (&made,), r) ==> *r == buffer,
        forall|r: (SocketIndex, UdpTxBufferMut<S>)| #[trigger]
            call_ensures(TileTxBuffer::<S>::into_parts, (made,), r) ==> r.0 == index && r.1
                == buffer,
{
}

/// A request to a destination, and a received packet, are what they were made of.
pub proof fn law_tile_packets_are_what_came<S: UdpSocket>(
    destination: SocketAddr,
    meta: TileTxMeta,
    received: UdpReceive<UdpRxBuffer<S>, S::RecvMeta>,
    index: SocketIndex,
    packet: TileRxPacket<S>,
)
    ensures
        call_ensures(TileTxMeta::new, (destination,), meta) ==> meta.destination == destination
            && meta.source_ip is None && meta.source_port is None && meta.ecn is None
            && meta.gso_segment_size is None,
        call_ensures(TileRxPacket::<S>::new, (received, index), packet) ==> packet.meta
            == received.meta && packet.packet == received.packet && packet.source_socket == index,
{
}

} // verus!
