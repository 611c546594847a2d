//! An actor that owns a wait-driven UDP socket and lends its buffers.
//!
//! The actor is driven in passes. A pass takes commands while the actor wants them,
//! then transmits and receives, delivers what was received, and ends with a decision:
//! stop, run again, or wait.

use vstd::prelude::*;

use crate::batch::{Notification, RecvBatch, SendError, TxSlot};
use crate::buffer::{PacketBuffer, PacketBufferMut};
use crate::error::Error;
use crate::io::IoError;
use crate::net::{IpAddr, SocketAddr};
use crate::num::NonZeroU16;
use crate::ring::reversed;
use crate::tile_runtime::{
    flush_end, flush_ran, flush_run, flush_send_follows, flush_sends_follow, flush_socket,
    law_flushes_go_on_until_refused, FlushSend,
};
use crate::udp::{
    EcnCodepoint, UdpReceive, UdpRxBuffer, UdpSocket, UdpTransmit, UdpTxBuffer, UdpTxBufferMut,
};

verus! {

/// Configuration for a UDP socket actor.
#[derive(Clone, Copy, Debug, Eq, PartialEq, Structural)]
pub struct ActorConfig {
    /// Number of packets requested from the socket in one receive pass.
    pub recv_batch_size: usize,
    /// Capacity of the actor command queue.
    pub command_queue_capacity: usize,
    /// Capacity of the queue of received batches.
    pub rx_queue_capacity: usize,
    /// Maximum number of queued transmit packets held before the actor stops
    /// accepting more TX commands in one pass.
    pub pending_tx_capacity: usize,
}

impl Default for ActorConfig {
    fn default() -> (r: Self)
        ensures
            r == (ActorConfig {
                recv_batch_size: 64,
                command_queue_capacity: 1024,
                rx_queue_capacity: 1024,
                pending_tx_capacity: 1024,
            }),
    {
        ActorConfig {
            recv_batch_size: 64,
            command_queue_capacity: 1024,
            rx_queue_capacity: 1024,
            pending_tx_capacity: 1024,
        }
    }
}

/// `value`, but at least 1.
pub open spec fn at_least_one(value: usize) -> usize {
    if value == 0 {
        1
    } else {
        value
    }
}

fn raised(value: usize) -> (r: usize)
    ensures
        r == at_least_one(value),
{
    if value == 0 {
        1
    } else {
        value
    }
}

impl ActorConfig {
    /// Every size is at least 1.
    pub open spec fn wf(self) -> bool {
        &&& self.recv_batch_size > 0
        &&& self.command_queue_capacity > 0
        &&& self.rx_queue_capacity > 0
        &&& self.pending_tx_capacity > 0
    }

    /// Raises every size to at least 1.
    #[must_use]
    pub fn normalize(self) -> (r: Self)
        ensures
            r.wf(),
            r == (ActorConfig {
                recv_batch_size: at_least_one(self.recv_batch_size),
                command_queue_capacity: at_least_one(self.command_queue_capacity),
                rx_queue_capacity: at_least_one(self.rx_queue_capacity),
                pending_tx_capacity: at_least_one(self.pending_tx_capacity),
            }),
    {
        ActorConfig {
            recv_batch_size: raised(self.recv_batch_size),
            command_queue_capacity: raised(self.command_queue_capacity),
            rx_queue_capacity: raised(self.rx_queue_capacity),
            pending_tx_capacity: raised(self.pending_tx_capacity),
        }
    }
}

/// Error returned when an actor handle or receive stream has closed.
#[derive(Clone, Copy, Debug, Eq, PartialEq, Structural)]
pub struct ActorClosed;

impl ActorClosed {
    /// Renders this error for people.
    pub fn message(&self) -> (r: String)
        ensures
            r@ == "UDP actor is closed"@,
    {
        "UDP actor is closed".to_owned()
    }
}

/// Error returned by UDP actor operations.
#[derive(Clone, Debug)]
pub enum AsyncUdpError {
    /// The socket driver did not expose a wake handle.
    MissingWakeHandle,
    /// Registering or waiting on a file descriptor failed.
    Io(IoError),
    /// The actor task has closed.
    ActorClosed,
    /// The socket returned a core operation error.
    Socket(Error),
    /// The socket returned a send error after accepting a prefix.
    Send(SendError),
    /// The actor task panicked or was cancelled, with a description.
    Join(String),
}

impl AsyncUdpError {
    /// The text that describes this error.
    pub open spec fn message_text(self) -> Seq<char> {
        match self {
            AsyncUdpError::MissingWakeHandle => "wait-driven socket did not expose a wake fd"@,
            AsyncUdpError::Io(error) => "async fd operation failed: "@ + error.text@,
            AsyncUdpError::ActorClosed => "UDP actor is closed"@,
            AsyncUdpError::Socket(error) => "UDP socket operation failed: "@ + error.message_text(),
            AsyncUdpError::Send(error) => "UDP send failed: "@ + error.message_text(),
            AsyncUdpError::Join(text) => "UDP actor task failed: "@ + text@,
        }
    }

    /// Renders this error for people.
    pub fn message(&self) -> (r: String)
        ensures
            r@ == self.message_text(),
    {
        match self {
            AsyncUdpError::MissingWakeHandle => {
                "wait-driven socket did not expose a wake fd".to_owned()
            },
            AsyncUdpError::Io(error) => {
                "async fd operation failed: ".to_owned().concat(error.text.as_str())
            },
            AsyncUdpError::ActorClosed => "UDP actor is closed".to_owned(),
            AsyncUdpError::Socket(error) => {
                "UDP socket operation failed: ".to_owned().concat(error.message().as_str())
            },
            AsyncUdpError::Send(error) => {
                "UDP send failed: ".to_owned().concat(error.message().as_str())
            },
            AsyncUdpError::Join(text) => {
                "UDP actor task failed: ".to_owned().concat(text.as_str())
            },
        }
    }
}

impl From<Error> for AsyncUdpError {
    fn from(value: Error) -> (r: Self) {
        AsyncUdpError::Socket(value)
    }
}

impl vstd::std_specs::convert::FromSpecImpl<Error> for AsyncUdpError {
    open spec fn obeys_from_spec() -> bool {
        true
    }

    open spec fn from_spec(value: Error) -> Self {
        AsyncUdpError::Socket(value)
    }
}

impl From<SendError> for AsyncUdpError {
    fn from(value: SendError) -> (r: Self) {
        AsyncUdpError::Send(value)
    }
}

impl vstd::std_specs::convert::FromSpecImpl<SendError> for AsyncUdpError {
    open spec fn obeys_from_spec() -> bool {
        true
    }

    open spec fn from_spec(value: SendError) -> Self {
        AsyncUdpError::Send(value)
    }
}

impl From<ActorClosed> for AsyncUdpError {
    fn from(value: ActorClosed) -> (r: Self) {
        AsyncUdpError::ActorClosed
    }
}

impl vstd::std_specs::convert::FromSpecImpl<ActorClosed> for AsyncUdpError {
    open spec fn obeys_from_spec() -> bool {
        true
    }

    open spec fn from_spec(value: ActorClosed) -> Self {
        AsyncUdpError::ActorClosed
    }
}

/// Lease held by actor buffer wrappers while application code owns a socket buffer.
#[derive(Debug, Eq, PartialEq)]
pub struct ActorBufferLease;

/// The leases that are out.
#[derive(Debug, Eq, PartialEq)]
pub struct ActorState {
    outstanding_buffers: usize,
}

impl ActorState {
    /// The number of leases that are out.
    pub closed spec fn view(&self) -> nat {
        self.outstanding_buffers as nat
    }

    /// Starts with no lease out.
    #[must_use]
    pub fn new() -> (r: Self)
        ensures
            r@ == 0,
    {
        ActorState { outstanding_buffers: 0 }
    }

    /// Gives out a lease.
    pub fn lease(&mut self) -> (r: ActorBufferLease)
        requires
            old(self)@ < usize::MAX,
        ensures
            final(self)@ == old(self)@ + 1,
    {
        self.outstanding_buffers = self.outstanding_buffers + 1;
        ActorBufferLease
    }

    /// Takes a lease back. Returns whether it was the last one, so that whoever waits
    /// for all buffers is to be notified.
    pub fn release(&mut self, lease: ActorBufferLease) -> (r: bool)
        ensures
            final(self)@ == leases_left(old(self)@, 1),
            r == (old(self)@ == 1),
    {
        if self.outstanding_buffers > 0 {
            self.outstanding_buffers = self.outstanding_buffers - 1;
            return self.outstanding_buffers == 0;
        }
        false
    }

    /// Returns whether `count` more leases can be counted.
    #[must_use]
    pub fn can_lend(&self, count: usize) -> (r: bool)
        ensures
            r == (self@ + count <= usize::MAX),
    {
        count <= usize::MAX - self.outstanding_buffers
    }

    /// Returns whether all buffers are back.
    #[must_use]
    pub fn is_idle(&self) -> (r: bool)
        ensures
            r == (self@ == 0),
    {
        self.outstanding_buffers == 0
    }
}

/// The leases that are out after `released` came back.
pub open spec fn leases_left(outstanding: nat, released: nat) -> nat {
    if released <= outstanding {
        (outstanding - released) as nat
    } else {
        0
    }
}

/// Transmit metadata applied to a batch of actor-owned transmit buffers.
#[derive(Clone, Copy, Debug, Eq, PartialEq, Structural)]
pub struct ActorTxMeta {
    /// Remote destination address.
    pub destination: SocketAddr,
    /// Optional source IP selection.
    pub source_ip: Option<IpAddr>,
    /// Optional source UDP port selection.
    pub source_port: Option<u16>,
    /// Optional ECN codepoint.
    pub ecn: Option<EcnCodepoint>,
    /// Optional UDP segmentation size.
    pub gso_segment_size: Option<NonZeroU16>,
}

impl ActorTxMeta {
    /// Metadata with nothing but a destination.
    pub open spec fn plain(destination: SocketAddr) -> Self {
        ActorTxMeta {
            destination,
            source_ip: None,
            source_port: None,
            ecn: None,
            gso_segment_size: None,
        }
    }

    /// Creates metadata for a UDP transmit batch.
    #[must_use]
    pub fn new(destination: SocketAddr) -> (r: Self)
        ensures
            r == ActorTxMeta::plain(destination),
    {
        ActorTxMeta {
            destination,
            source_ip: None,
            source_port: None,
            ecn: None,
            gso_segment_size: None,
        }
    }
}

impl From<SocketAddr> for ActorTxMeta {
    fn from(value: SocketAddr) -> (r: Self) {
        ActorTxMeta::new(value)
    }
}

impl vstd::std_specs::convert::FromSpecImpl<SocketAddr> for ActorTxMeta {
    open spec fn obeys_from_spec() -> bool {
        true
    }

    open spec fn from_spec(value: SocketAddr) -> Self {
        ActorTxMeta::plain(value)
    }
}

/// `tx` carries exactly the requests of `meta`.
pub open spec fn follows_meta<B>(tx: UdpTransmit<B>, meta: ActorTxMeta) -> bool {
    &&& tx.destination == meta.destination
    &&& tx.source_ip == meta.source_ip
    &&& tx.source_port == meta.source_port
    &&& tx.ecn == meta.ecn
    &&& tx.gso_segment_size == meta.gso_segment_size
}

/// Mutable transmit buffer loaned from an actor-owned socket.
pub struct ActorTxBuffer<S: UdpSocket> {
    buffer: UdpTxBufferMut<S>,
    lease: ActorBufferLease,
}

impl<S: UdpSocket> ActorTxBuffer<S> {
    /// The socket transmit buffer.
    pub closed spec fn view(&self) -> UdpTxBufferMut<S> {
        self.buffer
    }

    /// Wraps a socket buffer with its lease.
    #[must_use]
    pub fn new(buffer: UdpTxBufferMut<S>, lease: ActorBufferLease) -> (r: Self)
        ensures
            r@ == buffer,
    {
        ActorTxBuffer { buffer, lease }
    }

    /// Borrows the socket transmit buffer.
    #[must_use]
    pub fn buffer(&self) -> (r: &UdpTxBufferMut<S>)
        ensures
            *r == self@,
    {
        &self.buffer
    }

    /// Mutably borrows the socket transmit buffer.
    #[must_use]
    pub fn buffer_mut(&mut self) -> (r: &mut UdpTxBufferMut<S>)
        ensures
            *r == old(self)@,
            final(self)@ == *final(r),
    {
        &mut self.buffer
    }

    /// Freezes this buffer into an actor transmit packet. The lease goes along.
    #[must_use]
    pub fn freeze(self, destination: SocketAddr) -> (r: ActorTxPacket<S>)
        requires
            self@.wf(),
        ensures
            r@.wf(),
            r@.bytes() == self@.bytes(),
            r.meta() == ActorTxMeta::plain(destination),
    {
        ActorTxPacket::from_parts(self.buffer.freeze(), ActorTxMeta::new(destination), self.lease)
    }

    /// Gives the buffer and its lease back.
    pub fn into_parts(self) -> (r: (UdpTxBufferMut<S>, ActorBufferLease))
        ensures
            r.0 == self@,
    {
        (self.buffer, self.lease)
    }

    /// Turns this buffer into a transmit item and gives its lease back.
    pub fn into_transmit(self, meta: ActorTxMeta, state: &mut ActorState) -> (r: UdpTransmit<
        UdpTxBuffer<S>,
    >)
        requires
            self@.wf(),
        ensures
            r.packet.wf(),
            r.packet.bytes() == self@.bytes(),
            follows_meta(r, meta),
            final(state)@ == leases_left(old(state)@, 1),
    {
        let packet = self.buffer.freeze();
        let _ = state.release(self.lease);
        UdpTransmit {
            packet,
            destination: meta.destination,
            source_ip: meta.source_ip,
            source_port: meta.source_port,
            ecn: meta.ecn,
            gso_segment_size: meta.gso_segment_size,
        }
    }
}

/// Frozen transmit packet loaned from an actor-owned socket.
pub struct ActorTxPacket<S: UdpSocket> {
    /// UDP payload buffer.
    pub packet: UdpTxBuffer<S>,
    /// Remote destination address.
    pub destination: SocketAddr,
    /// Optional source IP selection.
    pub source_ip: Option<IpAddr>,
    /// Optional source UDP port selection.
    pub source_port: Option<u16>,
    /// Optional ECN codepoint.
    pub ecn: Option<EcnCodepoint>,
    /// Optional UDP segmentation size.
    pub gso_segment_size: Option<NonZeroU16>,
    /// Lease of the buffer.
    pub lease: ActorBufferLease,
}

impl<S: UdpSocket> ActorTxPacket<S> {
    /// The UDP payload buffer.
    pub open spec fn view(&self) -> UdpTxBuffer<S> {
        self.packet
    }

    /// The packet's requests.
    pub open spec fn meta(&self) -> ActorTxMeta {
        ActorTxMeta {
            destination: self.destination,
            source_ip: self.source_ip,
            source_port: self.source_port,
            ecn: self.ecn,
            gso_segment_size: self.gso_segment_size,
        }
    }

    /// Puts a packet together.
    #[must_use]
    pub fn from_parts(packet: UdpTxBuffer<S>, meta: ActorTxMeta, lease: ActorBufferLease) -> (r:
        Self)
        ensures
            r@ == packet,
            r.meta() == meta,
    {
        ActorTxPacket {
            packet,
            destination: meta.destination,
            source_ip: meta.source_ip,
            source_port: meta.source_port,
            ecn: meta.ecn,
            gso_segment_size: meta.gso_segment_size,
            lease,
        }
    }

    /// Borrows the UDP payload buffer.
    #[must_use]
    pub fn packet(&self) -> (r: &UdpTxBuffer<S>)
        ensures
            *r == self@,
    {
        &self.packet
    }

    /// Turns this packet into a transmit item and gives its lease back.
    pub fn into_transmit(self, state: &mut ActorState) -> (r: UdpTransmit<UdpTxBuffer<S>>)
        ensures
            r.packet == self@,
            follows_meta(r, self.meta()),
            final(state)@ == leases_left(old(state)@, 1),
    {
        let _ = state.release(self.lease);
        UdpTransmit {
            packet: self.packet,
            destination: self.destination,
            source_ip: self.source_ip,
            source_port: self.source_port,
            ecn: self.ecn,
            gso_segment_size: self.gso_segment_size,
        }
    }
}

/// One UDP packet received by an actor-owned socket.
pub struct ActorRxPacket<S: UdpSocket> {
    /// UDP payload buffer.
    pub packet: UdpRxBuffer<S>,
    /// Receive metadata produced by the socket backend.
    pub meta: S::RecvMeta,
    /// Lease of the buffer.
    pub lease: ActorBufferLease,
}

impl<S: UdpSocket> ActorRxPacket<S> {
    /// The UDP payload buffer.
    pub open spec fn view(&self) -> UdpRxBuffer<S> {
        self.packet
    }

    /// Wraps a received packet with its lease.
    #[must_use]
    pub fn new(receive: UdpReceive<UdpRxBuffer<S>, S::RecvMeta>, lease: ActorBufferLease) -> (r:
        Self)
        ensures
            r@ == receive.packet,
            r.meta == receive.meta,
    {
        ActorRxPacket { packet: receive.packet, meta: receive.meta, lease }
    }

    /// Borrows the UDP payload buffer.
    #[must_use]
    pub fn packet(&self) -> (r: &UdpRxBuffer<S>)
        ensures
            *r == self@,
    {
        &self.packet
    }

    /// Mutably borrows the UDP payload buffer.
    #[must_use]
    pub fn packet_mut(&mut self) -> (r: &mut UdpRxBuffer<S>)
        ensures
            *r == old(self)@,
            final(self)@ == *final(r),
            final(self).meta == old(self).meta,
    {
        &mut self.packet
    }

    /// Gives the packet's buffer and lease back.
    pub fn into_parts(self) -> (r: (UdpRxBuffer<S>, ActorBufferLease))
        ensures
            r.0 == self@,
    {
        (self.packet, self.lease)
    }
}

impl<S: UdpSocket> ActorRxPacket<S> where
    S::RxBuffer: PacketBufferMut<Frozen = UdpTxBuffer<S>>,
 {
    /// Converts this received packet into a frozen transmit packet. The lease goes along.
    #[must_use]
    pub fn into_transmit(self, destination: SocketAddr) -> (r: ActorTxPacket<S>)
        requires
            self@.wf(),
        ensures
            r@.wf(),
            r@.bytes() == self@.bytes(),
            r.meta() == ActorTxMeta::plain(destination),
    {
        ActorTxPacket::from_parts(self.packet.freeze(), ActorTxMeta::new(destination), self.lease)
    }
}

/// A batch of UDP packets received by an actor-owned socket.
pub struct ActorRxBatch<S: UdpSocket> {
    packets: Vec<ActorRxPacket<S>>,
}

impl<S: UdpSocket> ActorRxBatch<S> {
    /// The packets.
    pub closed spec fn view(&self) -> Seq<ActorRxPacket<S>> {
        self.packets@
    }

    /// Makes a batch of packets.
    #[must_use]
    pub fn new(packets: Vec<ActorRxPacket<S>>) -> (r: Self)
        ensures
            r@ == packets@,
    {
        ActorRxBatch { packets }
    }

    /// Returns the number of packets in the batch.
    #[must_use]
    pub fn len(&self) -> (r: usize)
        ensures
            r == self@.len(),
    {
        self.packets.len()
    }

    /// Returns `true` when the batch is empty.
    #[must_use]
    pub fn is_empty(&self) -> (r: bool)
        ensures
            r == (self@.len() == 0),
    {
        self.packets.len() == 0
    }

    /// Borrows all packets in the batch.
    #[must_use]
    pub fn as_slice(&self) -> (r: &[ActorRxPacket<S>])
        ensures
            r@ == self@,
    {
        self.packets.as_slice()
    }

    /// Borrows all packets in the batch mutably.
    #[must_use]
    pub fn as_mut_slice(&mut self) -> (r: &mut [ActorRxPacket<S>])
        ensures
            r@ == old(self)@,
            final(r)@.len() == r@.len() ==> final(self)@ == final(r)@,
    {
        self.packets.as_mut_slice()
    }

    /// Takes all packets out of the batch.
    pub fn drain(&mut self) -> (r: Vec<ActorRxPacket<S>>)
        ensures
            r@ == old(self)@,
            final(self)@ == Seq::<ActorRxPacket<S>>::empty(),
    {
        let mut packets: Vec<ActorRxPacket<S>> = Vec::new();
        core::mem::swap(&mut self.packets, &mut packets);
        packets
    }
}

/// What an actor is asked to do.
pub enum ActorCommand<S: UdpSocket> {
    /// Allocate up to `max` transmit buffers and reply with them.
    Allocate {
        /// Number of buffers.
        max: usize,
    },
    /// Send filled buffers.
    SendBuffers {
        /// The buffers.
        buffers: Vec<ActorTxBuffer<S>>,
        /// Where and how to send them.
        meta: ActorTxMeta,
    },
    /// Send frozen packets.
    SendPackets {
        /// The packets.
        packets: Vec<ActorTxPacket<S>>,
    },
    /// Stop.
    Shutdown,
}

/// What is left to do after a command.
pub enum CommandOutcome<S: UdpSocket> {
    /// Reply to an allocation.
    Reply(Result<Vec<ActorTxBuffer<S>>, Error>),
    /// Nothing: the packets are queued.
    Queued,
    /// Take no more commands.
    Shutdown,
}

/// What the actor does after a pass.
#[derive(Clone, Copy, Debug, Eq, PartialEq, Structural)]
pub enum ActorWait {
    /// Stop: everything is sent.
    Finish,
    /// Run the next pass at once.
    Run,
    /// Wait for a command or for the socket.
    CommandOrReadable,
    /// Wait for the socket.
    Readable,
}

/// The state of an actor between its passes.
pub struct UdpActor<S: UdpSocket> {
    config: ActorConfig,
    state: ActorState,
    pending_tx: Vec<TxSlot<UdpTransmit<UdpTxBuffer<S>>>>,
    recv_batch: RecvBatch<UdpReceive<UdpRxBuffer<S>, S::RecvMeta>>,
    rx_open: bool,
    commands_open: bool,
    shutdown_requested: bool,
    progressed: bool,
}

/// The buffers were wrapped in order.
pub open spec fn wrapped_buffers<S: UdpSocket>(
    wrapped: Seq<ActorTxBuffer<S>>,
    buffers: Seq<UdpTxBufferMut<S>>,
) -> bool {
    &&& wrapped.len() == buffers.len()
    &&& forall|i: int| 0 <= i < wrapped.len() ==> (#[trigger] wrapped[i])@ == buffers[i]
}

/// The slots send the buffers in order as `meta` asks.
pub open spec fn sends_buffers<S: UdpSocket>(
    slots: Seq<TxSlot<UdpTransmit<UdpTxBuffer<S>>>>,
    buffers: Seq<ActorTxBuffer<S>>,
    meta: ActorTxMeta,
) -> bool {
    &&& slots.len() == buffers.len()
    &&& forall|i: int|
        0 <= i < slots.len() ==> {
            &&& (#[trigger] slots[i]) matches TxSlot::Ready(tx)
            &&& tx.packet.wf()
            &&& tx.packet.bytes() == buffers[i]@.bytes()
            &&& follows_meta(tx, meta)
        }
}

/// The slots send the packets in order.
pub open spec fn sends_packets<S: UdpSocket>(
    slots: Seq<TxSlot<UdpTransmit<UdpTxBuffer<S>>>>,
    packets: Seq<ActorTxPacket<S>>,
) -> bool {
    &&& slots.len() == packets.len()
    &&& forall|i: int|
        0 <= i < slots.len() ==> {
            &&& (#[trigger] slots[i]) matches TxSlot::Ready(tx)
            &&& tx.packet == packets[i]@
            &&& follows_meta(tx, packets[i].meta())
        }
}

/// The command's buffers are consistent.
pub open spec fn command_wf<S: UdpSocket>(command: ActorCommand<S>) -> bool {
    command matches ActorCommand::SendBuffers { buffers, .. } ==> forall|i: int|
        0 <= i < buffers@.len() ==> (#[trigger] buffers@[i])@.wf()
}

impl<S: UdpSocket> UdpActor<S> {
    /// The configuration.
    pub closed spec fn config_spec(&self) -> ActorConfig {
        self.config
    }

    /// The number of leases that are out.
    pub closed spec fn outstanding(&self) -> nat {
        self.state@
    }

    /// The packets that wait for the socket.
    pub closed spec fn pending(&self) -> Seq<TxSlot<UdpTransmit<UdpTxBuffer<S>>>> {
        self.pending_tx@
    }

    /// Somebody still takes received batches.
    pub closed spec fn is_rx_open(&self) -> bool {
        self.rx_open
    }

    /// Somebody may still send commands.
    pub closed spec fn is_commands_open(&self) -> bool {
        self.commands_open
    }

    /// The actor was asked to stop.
    pub closed spec fn is_shutdown_requested(&self) -> bool {
        self.shutdown_requested
    }

    /// Something has been done in this pass.
    pub closed spec fn has_progressed(&self) -> bool {
        self.progressed
    }

    /// The sizes are positive, and an actor that was asked to stop takes no commands.
    pub closed spec fn wf(&self) -> bool {
        &&& self.config.wf()
        &&& self.recv_batch.wf()
        &&& self.recv_batch.spec_capacity() == self.config.recv_batch_size
        &&& self.shutdown_requested ==> !self.commands_open
    }

    /// `self` differs from `other` at most in its leases and pending packets.
    pub open spec fn same_phase(&self, other: &Self) -> bool {
        &&& self.config_spec() == other.config_spec()
        &&& self.is_rx_open() == other.is_rx_open()
        &&& self.is_commands_open() == other.is_commands_open()
        &&& self.is_shutdown_requested() == other.is_shutdown_requested()
    }

    /// Creates an actor that has just been started.
    #[must_use]
    pub fn new(config: ActorConfig) -> (r: Self)
        ensures
            r.wf(),
            r.config_spec() == (ActorConfig {
                recv_batch_size: at_least_one(config.recv_batch_size),
                command_queue_capacity: at_least_one(config.command_queue_capacity),
                rx_queue_capacity: at_least_one(config.rx_queue_capacity),
                pending_tx_capacity: at_least_one(config.pending_tx_capacity),
            }),
            r.outstanding() == 0,
            r.pending().len() == 0,
            r.is_rx_open(),
            r.is_commands_open(),
            !r.is_shutdown_requested(),
    {
        let config = config.normalize();
        UdpActor {
            config,
            state: ActorState::new(),
            pending_tx: Vec::new(),
            recv_batch: RecvBatch::with_capacity(config.recv_batch_size),
            rx_open: true,
            commands_open: true,
            shutdown_requested: false,
            progressed: false,
        }
    }

    /// Starts a pass, in which nothing has been done yet.
    pub fn begin_pass(&mut self)
        requires
            old(self).wf(),
        ensures
            final(self).wf(),
            final(self).same_phase(old(self)),
            final(self).outstanding() == old(self).outstanding(),
            final(self).pending() == old(self).pending(),
            !final(self).has_progressed(),
    {
        self.progressed = false;
    }

    /// Returns whether the actor takes another command in this pass: there are commands,
    /// and not too many packets are pending.
    #[must_use]
    pub fn wants_command(&self) -> (r: bool)
        ensures
            r == (self.is_commands_open() && !self.is_shutdown_requested() && self.pending().len()
                < self.config_spec().pending_tx_capacity),
    {
        self.commands_open && !self.shutdown_requested && self.pending_tx.len()
            < self.config.pending_tx_capacity
    }

    /// Records that nobody can send commands any more.
    pub fn commands_disconnected(&mut self)
        requires
            old(self).wf(),
        ensures
            final(self).wf(),
            !final(self).is_commands_open(),
            final(self).config_spec() == old(self).config_spec(),
            final(self).is_rx_open() == old(self).is_rx_open(),
            final(self).is_shutdown_requested() == old(self).is_shutdown_requested(),
            final(self).outstanding() == old(self).outstanding(),
            final(self).pending() == old(self).pending(),
    {
        self.commands_open = false;
    }

    /// Takes a lease back. Returns whether it was the last one.
    pub fn release(&mut self, lease: ActorBufferLease) -> (r: bool)
        requires
            old(self).wf(),
        ensures
            final(self).wf(),
            final(self).same_phase(old(self)),
            final(self).pending() == old(self).pending(),
            final(self).outstanding() == leases_left(old(self).outstanding(), 1),
            r == (old(self).outstanding() == 1),
    {
        self.state.release(lease)
    }

    /// Returns whether all buffers are back, so that the socket may be closed.
    #[must_use]
    pub fn is_idle(&self) -> (r: bool)
        ensures
            r == (self.outstanding() == 0),
    {
        self.state.is_idle()
    }

    /// Returns whether `count` more leases can be counted.
    #[must_use]
    pub fn can_lend(&self, count: usize) -> (r: bool)
        ensures
            r == (self.outstanding() + count <= usize::MAX),
    {
        self.state.can_lend(count)
    }

    /// Carries out a command.
    pub fn handle_command(&mut self, socket: &mut S, command: ActorCommand<S>) -> (r: CommandOutcome<
        S,
    >)
        requires
            old(self).wf(),
            command_wf(command),
            command matches ActorCommand::Allocate { max } ==> old(self).outstanding() + max
                <= usize::MAX,
        ensures
            final(self).wf(),
            final(self).config_spec() == old(self).config_spec(),
            final(self).is_rx_open() == old(self).is_rx_open(),
            final(self).has_progressed(),
            match command {
                ActorCommand::Allocate { max } => {
                    &&& final(self).same_phase(old(self))
                    &&& final(self).pending() == old(self).pending()
                    &&& exists|fresh: Seq<UdpTxBufferMut<S>>, result: Result<usize, Error>|
                        {
                            &&& #[trigger] S::may_allocate(
                                *old(socket),
                                *final(socket),
                                max,
                                fresh,
                                result,
                            )
                            &&& match result {
                                Ok(_) => {
                                    &&& r matches CommandOutcome::Reply(Ok(buffers))
                                    &&& wrapped_buffers(buffers@, fresh)
                                    &&& final(self).outstanding() == old(self).outstanding()
                                        + fresh.len()
                                },
                                Err(error) => {
                                    &&& r matches CommandOutcome::Reply(Err(reported))
                                    &&& reported == error
                                    &&& final(self).outstanding() == old(self).outstanding()
                                },
                            }
                        }
                },
                ActorCommand::SendBuffers { buffers, meta } => {
                    &&& r is Queued
                    &&& *final(socket) == *old(socket)
                    &&& final(self).same_phase(old(self))
                    &&& final(self).outstanding() == leases_left(
                        old(self).outstanding(),
                        buffers@.len(),
                    )
                    &&& old(self).pending().is_prefix_of(final(self).pending())
                    &&& sends_buffers(
                        final(self).pending().skip(old(self).pending().len() as int),
                        buffers@,
                        meta,
                    )
                },
                ActorCommand::SendPackets { packets } => {
                    &&& r is Queued
                    &&& *final(socket) == *old(socket)
                    &&& final(self).same_phase(old(self))
                    &&& final(self).outstanding() == leases_left(
                        old(self).outstanding(),
                        packets@.len(),
                    )
                    &&& old(self).pending().is_prefix_of(final(self).pending())
                    &&& sends_packets(
                        final(self).pending().skip(old(self).pending().len() as int),
                        packets@,
                    )
                },
                ActorCommand::Shutdown => {
                    &&& r is Shutdown
                    &&& *final(socket) == *old(socket)
                    &&& final(self).is_shutdown_requested()
                    &&& !final(self).is_commands_open()
                    &&& final(self).outstanding() == old(self).outstanding()
                    &&& final(self).pending() == old(self).pending()
                },
            },
    {
        self.progressed = true;
        match command {
            ActorCommand::Allocate { max } => {
                let mut fresh: Vec<UdpTxBufferMut<S>> = Vec::new();
                let result = socket.allocate_tx_batch(&mut fresh, max);
                proof {
                    assert(fresh@.skip(0) =~= fresh@);
                    assert(S::may_allocate(*old(socket), *socket, max, fresh@, result));
                }
                match result {
                    Ok(_) => CommandOutcome::Reply(Ok(self.lend(fresh))),
                    Err(error) => CommandOutcome::Reply(Err(error)),
                }
            },
            ActorCommand::SendBuffers { buffers, meta } => {
                self.queue_buffers(buffers, meta);
                CommandOutcome::Queued
            },
            ActorCommand::SendPackets { packets } => {
                self.queue_packets(packets);
                CommandOutcome::Queued
            },
            ActorCommand::Shutdown => {
                self.shutdown_requested = true;
                self.commands_open = false;
                CommandOutcome::Shutdown
            },
        }
    }

    fn lend(&mut self, fresh: Vec<UdpTxBufferMut<S>>) -> (r: Vec<ActorTxBuffer<S>>)
        requires
            old(self).wf(),
            old(self).outstanding() + fresh@.len() <= usize::MAX,
        ensures
            final(self).wf(),
            final(self).has_progressed() == old(self).has_progressed(),
            final(self).same_phase(old(self)),
            final(self).pending() == old(self).pending(),
            wrapped_buffers(r@, fresh@),
            final(self).outstanding() == old(self).outstanding() + fresh@.len(),
    {
        let count: usize = fresh.len();
        let ghost given = fresh@;
        let mut left = reversed(fresh);
        let mut out: Vec<ActorTxBuffer<S>> = Vec::with_capacity(count);
        while left.len() > 0
            invariant
                self.wf(),
                self.same_phase(old(self)),
                self.has_progressed() == old(self).has_progressed(),
                self.pending() == old(self).pending(),
                count == given.len(),
                left@.len() + out@.len() == count,
                old(self).outstanding() + count <= usize::MAX,
                self.outstanding() == old(self).outstanding() + out@.len(),
                forall|i: int|
                    0 <= i < left@.len() ==> (#[trigger] left@[i]) == given[count - 1 - i],
                forall|i: int| 0 <= i < out@.len() ==> (#[trigger] out@[i])@ == given[i],
            decreases left@.len(),
        {
            if let Some(buffer) = left.pop() {
                let lease = self.state.lease();
                out.push(ActorTxBuffer::new(buffer, lease));
            }
        }
        out
    }

    fn queue_buffers(&mut self, buffers: Vec<ActorTxBuffer<S>>, meta: ActorTxMeta)
        requires
            old(self).wf(),
            forall|i: int| 0 <= i < buffers@.len() ==> (#[trigger] buffers@[i])@.wf(),
        ensures
            final(self).wf(),
            final(self).has_progressed() == old(self).has_progressed(),
            final(self).same_phase(old(self)),
            final(self).outstanding() == leases_left(old(self).outstanding(), buffers@.len()),
            old(self).pending().is_prefix_of(final(self).pending()),
            sends_buffers(
                final(self).pending().skip(old(self).pending().len() as int),
                buffers@,
                meta,
            ),
    {
        let count: usize = buffers.len();
        let ghost given = buffers@;
        let ghost start = self.pending_tx@;
        let ghost mut queued: nat = 0;
        let mut left = reversed(buffers);
        while left.len() > 0
            invariant
                self.wf(),
                self.same_phase(old(self)),
                self.has_progressed() == old(self).has_progressed(),
                start == old(self).pending(),
                count == given.len(),
                left@.len() + queued == count,
                self.outstanding() == leases_left(old(self).outstanding(), queued),
                self.pending_tx@.len() == start.len() + queued,
                start.is_prefix_of(self.pending_tx@),
                forall|i: int| 0 <= i < given.len() ==> (#[trigger] given[i])@.wf(),
                forall|i: int|
                    0 <= i < left@.len() ==> (#[trigger] left@[i]) == given[count - 1 - i],
                forall|i: int|
                    start.len() <= i < self.pending_tx@.len() ==> {
                        &&& (#[trigger] self.pending_tx@[i]) matches TxSlot::Ready(tx)
                        &&& tx.packet.wf()
                        &&& tx.packet.bytes() == given[i - start.len()]@.bytes()
                        &&& follows_meta(tx, meta)
                    },
            decreases left@.len(),
        {
            if let Some(buffer) = left.pop() {
                assert(buffer == given[queued as int]);
                let transmit = buffer.into_transmit(meta, &mut self.state);
                self.pending_tx.push(TxSlot::Ready(transmit));
                proof {
                    queued = queued + 1;
                }
            }
        }
        proof {
            let added = self.pending().skip(start.len() as int);
            assert forall|i: int| 0 <= i < added.len() implies {
                &&& (#[trigger] added[i]) matches TxSlot::Ready(tx)
                &&& tx.packet.wf()
                &&& tx.packet.bytes() == given[i]@.bytes()
                &&& follows_meta(tx, meta)
            } by {
                assert(added[i] == self.pending_tx@[i + start.len()]);
            }
        }
    }

    fn queue_packets(&mut self, packets: Vec<ActorTxPacket<S>>)
        requires
            old(self).wf(),
        ensures
            final(self).wf(),
            final(self).has_progressed() == old(self).has_progressed(),
            final(self).same_phase(old(self)),
            final(self).outstanding() == leases_left(old(self).outstanding(), packets@.len()),
            old(self).pending().is_prefix_of(final(self).pending()),
            sends_packets(
                final(self).pending().skip(old(self).pending().len() as int),
                packets@,
            ),
    {
        let count: usize = packets.len();
        let ghost given = packets@;
        let ghost start = self.pending_tx@;
        let ghost mut queued: nat = 0;
        let mut left = reversed(packets);
        while left.len() > 0
            invariant
                self.wf(),
                self.same_phase(old(self)),
                self.has_progressed() == old(self).has_progressed(),
                start == old(self).pending(),
                count == given.len(),
                left@.len() + queued == count,
                self.outstanding() == leases_left(old(self).outstanding(), queued),
                self.pending_tx@.len() == start.len() + queued,
                start.is_prefix_of(self.pending_tx@),
                forall|i: int|
                    0 <= i < left@.len() ==> (#[trigger] left@[i]) == given[count - 1 - i],
                forall|i: int|
                    start.len() <= i < self.pending_tx@.len() ==> {
                        &&& (#[trigger] self.pending_tx@[i]) matches TxSlot::Ready(tx)
                        &&& tx.packet == given[i - start.len()]@
                        &&& follows_meta(tx, given[i - start.len()].meta())
                    },
            decreases left@.len(),
        {
            if let Some(packet) = left.pop() {
                assert(packet == given[queued as int]);
                let transmit = packet.into_transmit(&mut self.state);
                self.pending_tx.push(TxSlot::Ready(transmit));
                proof {
                    queued = queued + 1;
                }
            }
        }
        proof {
            let added = self.pending().skip(start.len() as int);
            assert forall|i: int| 0 <= i < added.len() implies {
                &&& (#[trigger] added[i]) matches TxSlot::Ready(tx)
                &&& tx.packet == given[i]@
                &&& follows_meta(tx, given[i].meta())
            } by {
                assert(added[i] == self.pending_tx@[i + start.len()]);
            }
        }
    }

    /// Sends the pending packets until the socket takes no more, and notifies it when
    /// anything was sent.
    fn flush_pending_tx(&mut self, socket: &mut S) -> (r: Result<bool, AsyncUdpError>)
        requires
            old(self).wf(),
        ensures
            final(self).wf(),
            final(self).has_progressed() == old(self).has_progressed(),
            final(self).same_phase(old(self)),
            final(self).outstanding() == old(self).outstanding(),
            exists|sent: nat|
                {
                    &&& sent <= old(self).pending().len()
                    &&& final(self).pending() == #[trigger] old(self).pending().skip(sent as int)
                    &&& r matches Ok(progressed) ==> progressed == (sent > 0)
                },
            exists|told: Set<Notification<S>>|
                {
                    &&& #[trigger] flushed_and_notified(
                        *old(socket),
                        *final(socket),
                        old(self).pending(),
                        final(self).pending(),
                        told,
                        r,
                    )
                    &&& forall|note: Notification<S>| #[trigger]
                        told.contains(note) ==> exists|notified: &mut S|
                            {
                                &&& #[trigger] call_ensures(S::notify_tx, (notified,), note.result)
                                &&& *notified == note.before
                                &&& *final(notified) == note.after
                            }
                },
    {
        let waiting: usize = self.pending_tx.len();
        let mut sent_packets: u64 = 0;
        let (outcome, sent) = flush_socket(socket, &mut self.pending_tx, &mut sent_packets);
        assert(self.pending() == old(self).pending().skip(sent@ as int));
        let left: usize = self.pending_tx.len();
        let ghost reached = *socket;
        let ghost mut told: Set<Notification<S>> = Set::empty();
        if let Err(error) = outcome {
            assert(flushed_and_notified(
                *old(socket),
                *socket,
                old(self).pending(),
                self.pending(),
                told,
                Err::<bool, AsyncUdpError>(AsyncUdpError::Send(error)),
            ));
            return Err(AsyncUdpError::Send(error));
        }
        assert(flush_ran(
            *old(socket),
            reached,
            old(self).pending(),
            self.pending(),
            Ok::<(), SendError>(()),
        ));
        if left < waiting {
            let result = socket.notify_tx();
            proof {
                let note = Notification { before: reached, after: *socket, result };
                told = told.insert(note);
                assert(exists|notified: &mut S|
                    {
                        &&& #[trigger] call_ensures(S::notify_tx, (notified,), note.result)
                        &&& *notified == note.before
                        &&& *final(notified) == note.after
                    });
            }
            if let Err(error) = result {
                assert(flushed_and_notified(
                    *old(socket),
                    *socket,
                    old(self).pending(),
                    self.pending(),
                    told,
                    Err::<bool, AsyncUdpError>(AsyncUdpError::Socket(error)),
                ));
                return Err(AsyncUdpError::Socket(error));
            }
            proof {
                let done: () = result->Ok_0;
                assert(done == ());
                assert(result == Ok::<(), Error>(done));
            }
        }
        assert(flushed_and_notified(
            *old(socket),
            *socket,
            old(self).pending(),
            self.pending(),
            told,
            Ok::<bool, AsyncUdpError>(left < waiting),
        ));
        Ok(left < waiting)
    }

    /// Sends what is pending, reclaims completions and sends again. Returns whether
    /// anything was sent or completed.
    pub fn transmit(&mut self, socket: &mut S) -> (r: Result<bool, AsyncUdpError>)
        requires
            old(self).wf(),
        ensures
            final(self).wf(),
            final(self).has_progressed() == old(self).has_progressed(),
            final(self).same_phase(old(self)),
            final(self).outstanding() == old(self).outstanding(),
            exists|sent: nat|
                {
                    &&& sent <= old(self).pending().len()
                    &&& final(self).pending() == #[trigger] old(self).pending().skip(sent as int)
                    &&& r matches Ok(progressed) ==> (sent > 0 ==> progressed)
                },
            exists|told: Set<Notification<S>>|
                {
                    &&& #[trigger] transmitted(
                        *old(socket),
                        *final(socket),
                        old(self).pending(),
                        final(self).pending(),
                        told,
                        r,
                    )
                    &&& forall|note: Notification<S>| #[trigger]
                        told.contains(note) ==> exists|notified: &mut S|
                            {
                                &&& #[trigger] call_ensures(S::notify_tx, (notified,), note.result)
                                &&& *notified == note.before
                                &&& *final(notified) == note.after
                            }
                },
    {
        let ghost start = self.pending();
        let first = self.flush_pending_tx(socket);
        let ghost sent_first = choose|sent: nat|
            {
                &&& sent <= start.len()
                &&& self.pending() == #[trigger] start.skip(sent as int)
                &&& first matches Ok(progressed) ==> progressed == (sent > 0)
            };
        assert(self.pending() == start.skip(sent_first as int));
        let ghost middle = self.pending();
        let ghost reached = *socket;
        let ghost told_first = choose|told: Set<Notification<S>>|
            {
                &&& #[trigger] flushed_and_notified(*old(socket), reached, start, middle, told, first)
                &&& forall|note: Notification<S>| #[trigger]
                    told.contains(note) ==> exists|notified: &mut S|
                        {
                            &&& #[trigger] call_ensures(S::notify_tx, (notified,), note.result)
                            &&& *notified == note.before
                            &&& *final(notified) == note.after
                        }
            };
        let sent_before = match first {
            Ok(progressed) => progressed,
            Err(error) => {
                assert(transmitted(
                    *old(socket),
                    *socket,
                    start,
                    middle,
                    told_first,
                    Err::<bool, AsyncUdpError>(error),
                ));
                return Err(error);
            },
        };
        let reclaimed = socket.drain_tx_completions();
        assert(S::may_reclaim(reached, *socket, reclaimed));
        let completed: usize = match reclaimed {
            Ok(completed) => completed,
            Err(error) => {
                assert(reclaim_failed(
                    *old(socket),
                    reached,
                    *socket,
                    start,
                    middle,
                    told_first,
                    error,
                ));
                assert(transmitted(
                    *old(socket),
                    *socket,
                    start,
                    middle,
                    told_first,
                    Err::<bool, AsyncUdpError>(AsyncUdpError::Socket(error)),
                ));
                return Err(AsyncUdpError::Socket(error));
            },
        };
        let ghost given = *socket;
        let second = self.flush_pending_tx(socket);
        let ghost told_second = choose|told: Set<Notification<S>>|
            {
                &&& #[trigger] flushed_and_notified(given, *socket, middle, self.pending(), told, second)
                &&& forall|note: Notification<S>| #[trigger]
                    told.contains(note) ==> exists|notified: &mut S|
                        {
                            &&& #[trigger] call_ensures(S::notify_tx, (notified,), note.result)
                            &&& *notified == note.before
                            &&& *final(notified) == note.after
                        }
            };
        let ghost told = told_first.union(told_second);
        proof {
            let sent_second = choose|sent: nat|
                {
                    &&& sent <= middle.len()
                    &&& self.pending() == #[trigger] middle.skip(sent as int)
                    &&& second matches Ok(progressed) ==> progressed == (sent > 0)
                };
            let sent = sent_first + sent_second;
            assert(middle.skip(sent_second as int) =~= start.skip(sent as int));
            assert(self.pending() == start.skip(sent as int));
            assert(first == Ok::<bool, AsyncUdpError>(middle.len() < start.len()));
            lemma_more_told(*old(socket), reached, start, middle, told_first, told, first);
            lemma_more_told(given, *socket, middle, self.pending(), told_second, told, second);
            assert(flushed_twice(
                *old(socket),
                reached,
                given,
                *socket,
                start,
                middle,
                self.pending(),
                told,
                completed,
                second,
            ));
        }
        let result = match second {
            Ok(progressed) => Ok(sent_before || completed != 0 || progressed),
            Err(error) => Err(error),
        };
        assert(transmitted(*old(socket), *socket, start, self.pending(), told, result));
        result
    }

    /// Returns whether the actor receives in this pass.
    #[must_use]
    pub fn wants_receive(&self) -> (r: bool)
        ensures
            r == (self.is_rx_open() && !self.is_shutdown_requested()),
    {
        self.rx_open && !self.shutdown_requested
    }

    /// Receives one batch and lends its packets. There is none when the socket has
    /// nothing or would block.
    pub fn receive(&mut self, socket: &mut S) -> (r: Result<
        Option<ActorRxBatch<S>>,
        AsyncUdpError,
    >)
        requires
            old(self).wf(),
            old(self).outstanding() + old(self).config_spec().recv_batch_size <= usize::MAX,
        ensures
            final(self).wf(),
            final(self).has_progressed() == old(self).has_progressed(),
            final(self).same_phase(old(self)),
            final(self).pending() == old(self).pending(),
            exists|
                received: Seq<UdpReceive<UdpRxBuffer<S>, S::RecvMeta>>,
                result: Result<usize, Error>,
            |
                {
                    &&& #[trigger] S::may_recv(*old(socket), *final(socket), received, result)
                    &&& receive_outcome(
                        received,
                        result,
                        r,
                        final(self).outstanding() - old(self).outstanding(),
                    )
                },
    {
        self.recv_batch.clear();
        let result = socket.recv(&mut self.recv_batch);
        proof {
            assert(self.recv_batch@.skip(0) =~= self.recv_batch@);
            assert(S::may_recv(*old(socket), *socket, self.recv_batch@, result));
        }
        match result {
            Ok(count) => {
                if count == 0 {
                    return Ok(None);
                }
                let ghost received = self.recv_batch@;
                let items = self.recv_batch.drain();
                Ok(Some(self.wrap_rx_batch(items)))
            },
            Err(error) => match error {
                Error::WouldBlock => Ok(None),
                other => Err(AsyncUdpError::Socket(other)),
            },
        }
    }

    fn wrap_rx_batch(&mut self, items: Vec<UdpReceive<UdpRxBuffer<S>, S::RecvMeta>>) -> (r:
        ActorRxBatch<S>)
        requires
            old(self).wf(),
            old(self).outstanding() + items@.len() <= usize::MAX,
        ensures
            final(self).wf(),
            final(self).has_progressed() == old(self).has_progressed(),
            final(self).same_phase(old(self)),
            final(self).pending() == old(self).pending(),
            is_lent_batch(r@, items@),
            final(self).outstanding() == old(self).outstanding() + items@.len(),
    {
        let count: usize = items.len();
        let ghost given = items@;
        let mut left = reversed(items);
        let mut packets: Vec<ActorRxPacket<S>> = Vec::with_capacity(count);
        while left.len() > 0
            invariant
                self.wf(),
                self.same_phase(old(self)),
                self.has_progressed() == old(self).has_progressed(),
                self.pending() == old(self).pending(),
                count == given.len(),
                left@.len() + packets@.len() == count,
                old(self).outstanding() + count <= usize::MAX,
                self.outstanding() == old(self).outstanding() + packets@.len(),
                forall|i: int|
                    0 <= i < left@.len() ==> (#[trigger] left@[i]) == given[count - 1 - i],
                forall|i: int|
                    0 <= i < packets@.len() ==> (#[trigger] packets@[i])@ == given[i].packet
                        && packets@[i].meta == given[i].meta,
            decreases left@.len(),
        {
            if let Some(item) = left.pop() {
                assert(item == given[packets@.len() as int]);
                let lease = self.state.lease();
                packets.push(ActorRxPacket::new(item, lease));
            }
        }
        ActorRxBatch::new(packets)
    }

    /// Returns whether the actor is done: it was asked to stop or nobody uses it any
    /// more, and nothing is pending.
    #[must_use]
    pub fn is_finished(&self) -> (r: bool)
        ensures
            r == self.finished(),
    {
        (self.shutdown_requested || (!self.commands_open && !self.rx_open))
            && self.pending_tx.len() == 0
    }

    /// The actor is done.
    pub open spec fn finished(&self) -> bool {
        &&& self.is_shutdown_requested() || (!self.is_commands_open() && !self.is_rx_open())
        &&& self.pending().len() == 0
    }

    /// Transmits, and then receives if the actor wants to. A received batch is to be
    /// delivered before the pass ends.
    pub fn run_io(&mut self, socket: &mut S) -> (r: Result<Option<ActorRxBatch<S>>, AsyncUdpError>)
        requires
            old(self).wf(),
            old(self).outstanding() + old(self).config_spec().recv_batch_size <= usize::MAX,
        ensures
            final(self).wf(),
            final(self).same_phase(old(self)),
            exists|sent: nat|
                {
                    &&& sent <= old(self).pending().len()
                    &&& final(self).pending() == #[trigger] old(self).pending().skip(sent as int)
                    &&& r is Ok && sent > 0 ==> final(self).has_progressed()
                },
            exists|told: Set<Notification<S>>, reached: S, sent: Result<bool, AsyncUdpError>|
                {
                    &&& #[trigger] transmitted(
                        *old(socket),
                        reached,
                        old(self).pending(),
                        final(self).pending(),
                        told,
                        sent,
                    )
                    &&& forall|note: Notification<S>| #[trigger]
                        told.contains(note) ==> exists|notified: &mut S|
                            {
                                &&& #[trigger] call_ensures(S::notify_tx, (notified,), note.result)
                                &&& *notified == note.before
                                &&& *final(notified) == note.after
                            }
                    &&& match sent {
                        Ok(progressed) => {
                            &&& final(self).has_progressed() == (old(self).has_progressed()
                                || progressed || r matches Ok(Some(_)))
                            &&& received_or_idle(
                                reached,
                                *final(socket),
                                old(self).is_rx_open() && !old(self).is_shutdown_requested(),
                                r,
                                final(self).outstanding() - old(self).outstanding(),
                            )
                        },
                        Err(error) => {
                            &&& *final(socket) == reached
                            &&& final(self).has_progressed() == old(self).has_progressed()
                            &&& final(self).outstanding() == old(self).outstanding()
                            &&& r == Err::<Option<ActorRxBatch<S>>, AsyncUdpError>(error)
                        },
                    }
                },
            r matches Ok(Some(batch)) ==> batch@.len() > 0,
    {
        let outcome = self.transmit(socket);
        let ghost reached = *socket;
        let ghost left = self.pending();
        let ghost told = choose|told: Set<Notification<S>>|
            {
                &&& #[trigger] transmitted(
                    *old(socket),
                    reached,
                    old(self).pending(),
                    left,
                    told,
                    outcome,
                )
                &&& forall|note: Notification<S>| #[trigger]
                    told.contains(note) ==> exists|notified: &mut S|
                        {
                            &&& #[trigger] call_ensures(S::notify_tx, (notified,), note.result)
                            &&& *notified == note.before
                            &&& *final(notified) == note.after
                        }
            };
        let ghost transmit_result = outcome;
        let sent = match outcome {
            Ok(sent) => sent,
            Err(error) => {
                assert(transmitted(
                    *old(socket),
                    reached,
                    old(self).pending(),
                    self.pending(),
                    told,
                    transmit_result,
                ));
                return Err(error);
            },
        };
        if sent {
            self.progressed = true;
        }
        assert(self.pending() == left);
        if !self.wants_receive() {
            assert(transmitted(
                *old(socket),
                reached,
                old(self).pending(),
                self.pending(),
                told,
                transmit_result,
            ));
            return Ok(None);
        }
        let outcome = self.receive(socket);
        match outcome {
            Ok(Some(batch)) => {
                self.progressed = true;
                assert(self.pending() == left);
                assert(transmitted(
                    *old(socket),
                    reached,
                    old(self).pending(),
                    self.pending(),
                    told,
                    transmit_result,
                ));
                Ok(Some(batch))
            },
            Ok(None) => Ok(None),
            Err(error) => Err(error),
        }
    }

    /// Ends a pass, given whether a received batch was delivered, and decides what
    /// happens next.
    pub fn end_pass(&mut self, delivered: Option<bool>) -> (r: ActorWait)
        requires
            old(self).wf(),
        ensures
            final(self).wf(),
            final(self).config_spec() == old(self).config_spec(),
            final(self).is_commands_open() == old(self).is_commands_open(),
            final(self).is_shutdown_requested() == old(self).is_shutdown_requested(),
            final(self).outstanding() == old(self).outstanding(),
            final(self).pending() == old(self).pending(),
            final(self).has_progressed() == old(self).has_progressed(),
            final(self).is_rx_open() == (old(self).is_rx_open() && delivered != Some(false)),
            r == (if final(self).finished() {
                ActorWait::Finish
            } else if old(self).has_progressed() {
                ActorWait::Run
            } else if old(self).is_commands_open() && !old(self).is_shutdown_requested() {
                ActorWait::CommandOrReadable
            } else {
                ActorWait::Readable
            }),
    {
        if let Some(accepted) = delivered {
            if !accepted {
                self.rx_open = false;
            }
        }
        if self.is_finished() {
            ActorWait::Finish
        } else if self.progressed {
            ActorWait::Run
        } else if self.commands_open && !self.shutdown_requested {
            ActorWait::CommandOrReadable
        } else {
            ActorWait::Readable
        }
    }
}

/// Where `sent` says that packets were sent, one of the notifications `told` took the
/// socket from `reached` to `end`. Otherwise the socket stayed as it was.
pub open spec fn notified_after<S>(
    reached: S,
    end: S,
    sent: bool,
    told: Set<Notification<S>>,
) -> bool {
    if sent {
        told.contains(
            Notification { before: reached, after: end, result: Ok::<(), Error>(()) },
        )
    } else {
        end == reached
    }
}

/// A flush and what follows it took the socket from `start` to `end` and left `left` of
/// `offered`. If the flush went through and sent anything, the socket was notified, which
/// is one of `told` and may have failed. `r` says whether anything was sent.
pub open spec fn flushed_and_notified<S: UdpSocket>(
    start: S,
    end: S,
    offered: Seq<TxSlot<UdpTransmit<UdpTxBuffer<S>>>>,
    left: Seq<TxSlot<UdpTransmit<UdpTxBuffer<S>>>>,
    told: Set<Notification<S>>,
    r: Result<bool, AsyncUdpError>,
) -> bool {
    match r {
        Ok(progressed) => {
            &&& progressed == (left.len() < offered.len())
            &&& exists|reached: S|
                {
                    &&& #[trigger] flush_ran(start, reached, offered, left, Ok::<(), SendError>(()))
                    &&& notified_after(reached, end, progressed, told)
                }
        },
        Err(AsyncUdpError::Send(error)) => flush_ran(
            start,
            end,
            offered,
            left,
            Err::<(), SendError>(error),
        ),
        Err(AsyncUdpError::Socket(error)) => {
            &&& left.len() < offered.len()
            &&& exists|reached: S|
                {
                    &&& #[trigger] flush_ran(start, reached, offered, left, Ok::<(), SendError>(()))
                    &&& told.contains(
                        Notification {
                            before: reached,
                            after: end,
                            result: Err::<(), Error>(error),
                        },
                    )
                }
        },
        Err(_) => false,
    }
}

/// The first flush went through and took the socket to `reached`, and reclaiming
/// completions failed with `error`.
pub open spec fn reclaim_failed<S: UdpSocket>(
    start: S,
    reached: S,
    end: S,
    offered: Seq<TxSlot<UdpTransmit<UdpTxBuffer<S>>>>,
    left: Seq<TxSlot<UdpTransmit<UdpTxBuffer<S>>>>,
    told: Set<Notification<S>>,
    error: Error,
) -> bool {
    &&& flushed_and_notified(
        start,
        reached,
        offered,
        left,
        told,
        Ok::<bool, AsyncUdpError>(left.len() < offered.len()),
    )
    &&& S::may_reclaim(reached, end, Err::<usize, Error>(error))
}

/// The first flush went through, took the socket to `reached` and left `middle`,
/// `completed` completions were reclaimed, which took it to `given`, and the second flush
/// took it to `end`, left `left` and returned `second`.
pub open spec fn flushed_twice<S: UdpSocket>(
    start: S,
    reached: S,
    given: S,
    end: S,
    offered: Seq<TxSlot<UdpTransmit<UdpTxBuffer<S>>>>,
    middle: Seq<TxSlot<UdpTransmit<UdpTxBuffer<S>>>>,
    left: Seq<TxSlot<UdpTransmit<UdpTxBuffer<S>>>>,
    told: Set<Notification<S>>,
    completed: usize,
    second: Result<bool, AsyncUdpError>,
) -> bool {
    &&& flushed_and_notified(
        start,
        reached,
        offered,
        middle,
        told,
        Ok::<bool, AsyncUdpError>(middle.len() < offered.len()),
    )
    &&& S::may_reclaim(reached, given, Ok::<usize, Error>(completed))
    &&& flushed_and_notified(given, end, middle, left, told, second)
}

/// The pending packets were sent, completions reclaimed and the rest sent again, up to
/// the first failure, which took the socket from `start` to `end`. `told` holds the
/// notifications. `r` says whether anything was sent or completed.
pub open spec fn transmitted<S: UdpSocket>(
    start: S,
    end: S,
    offered: Seq<TxSlot<UdpTransmit<UdpTxBuffer<S>>>>,
    left: Seq<TxSlot<UdpTransmit<UdpTxBuffer<S>>>>,
    told: Set<Notification<S>>,
    r: Result<bool, AsyncUdpError>,
) -> bool {
    ||| r is Err && flushed_and_notified(start, end, offered, left, told, r)
    ||| r matches Err(AsyncUdpError::Socket(error)) && exists|reached: S| #[trigger]
        reclaim_failed(start, reached, end, offered, left, told, error)
    ||| exists|
        reached: S,
        given: S,
        middle: Seq<TxSlot<UdpTransmit<UdpTxBuffer<S>>>>,
        completed: usize,
        second: Result<bool, AsyncUdpError>,
    |
        {
            &&& #[trigger] flushed_twice(
                start,
                reached,
                given,
                end,
                offered,
                middle,
                left,
                told,
                completed,
                second,
            )
            &&& r == (match second {
                Ok(sent) => Ok::<bool, AsyncUdpError>(
                    middle.len() < offered.len() || completed != 0 || sent,
                ),
                Err(error) => Err::<bool, AsyncUdpError>(error),
            })
        }
}

/// More notifications leave a flush what it is.
proof fn lemma_more_told<S: UdpSocket>(
    start: S,
    end: S,
    offered: Seq<TxSlot<UdpTransmit<UdpTxBuffer<S>>>>,
    left: Seq<TxSlot<UdpTransmit<UdpTxBuffer<S>>>>,
    told: Set<Notification<S>>,
    more: Set<Notification<S>>,
    r: Result<bool, AsyncUdpError>,
)
    requires
        flushed_and_notified(start, end, offered, left, told, r),
        told.subset_of(more),
    ensures
        flushed_and_notified(start, end, offered, left, more, r),
{
}

/// What a receive that returned `result` comes to: `r`, with `lent` more leases out.
pub open spec fn receive_outcome<S: UdpSocket>(
    received: Seq<UdpReceive<UdpRxBuffer<S>, S::RecvMeta>>,
    result: Result<usize, Error>,
    r: Result<Option<ActorRxBatch<S>>, AsyncUdpError>,
    lent: int,
) -> bool {
    match result {
        Ok(count) => if count == 0 {
            &&& r == Ok::<Option<ActorRxBatch<S>>, AsyncUdpError>(None)
            &&& lent == 0
        } else {
            &&& r matches Ok(Some(batch))
            &&& is_lent_batch(batch@, received)
            &&& batch@.len() == count
            &&& lent == count
        },
        Err(error) => {
            &&& lent == 0
            &&& r == (if error == Error::WouldBlock {
                Ok::<Option<ActorRxBatch<S>>, AsyncUdpError>(None)
            } else {
                Err::<Option<ActorRxBatch<S>>, AsyncUdpError>(AsyncUdpError::Socket(error))
            })
        },
    }
}

/// A receive took the socket from `before` to `after` and came to `r`, if one was
/// `wanted`. Otherwise the socket stayed as it was and there is nothing.
pub open spec fn received_or_idle<S: UdpSocket>(
    before: S,
    after: S,
    wanted: bool,
    r: Result<Option<ActorRxBatch<S>>, AsyncUdpError>,
    lent: int,
) -> bool {
    if wanted {
        exists|
            received: Seq<UdpReceive<UdpRxBuffer<S>, S::RecvMeta>>,
            result: Result<usize, Error>,
        |
            {
                &&& #[trigger] S::may_recv(before, after, received, result)
                &&& receive_outcome(received, result, r, lent)
            }
    } else {
        &&& after == before
        &&& r == Ok::<Option<ActorRxBatch<S>>, AsyncUdpError>(None)
        &&& lent == 0
    }
}

/// The batch lends the received packets in order.
pub open spec fn is_lent_batch<S: UdpSocket>(
    packets: Seq<ActorRxPacket<S>>,
    received: Seq<UdpReceive<UdpRxBuffer<S>, S::RecvMeta>>,
) -> bool {
    &&& packets.len() == received.len()
    &&& forall|i: int|
        0 <= i < packets.len() ==> (#[trigger] packets[i])@ == received[i].packet
            && packets[i].meta == received[i].meta
}

/// What a lent buffer does to the leases: lending `count` buffers and taking them back
/// leaves as many leases out as before.
pub proof fn law_leases_balance(outstanding: nat, count: nat)
    ensures
        leases_left(outstanding + count, count) == outstanding,
{
}

/// An actor that was asked to stop takes neither commands nor packets, and is done as
/// soon as nothing is pending.
pub proof fn law_shutdown_only_drains<S: UdpSocket>(actor: UdpActor<S>)
    requires
        actor.wf(),
        actor.is_shutdown_requested(),
    ensures
        !actor.is_commands_open(),
        actor.finished() <==> actor.pending().len() == 0,
{
}

/// The slots of `offered` that the sends of a flush accepted, in the order in which they
/// were accepted.
pub open spec fn accepted_slots<S: UdpSocket>(
    offered: Seq<TxSlot<UdpTransmit<UdpTxBuffer<S>>>>,
    sends: Seq<FlushSend<S>>,
) -> Seq<TxSlot<UdpTransmit<UdpTxBuffer<S>>>>
    decreases sends.len(),
{
    if sends.len() == 0 {
        Seq::empty()
    } else {
        accepted_slots(offered, sends.drop_last()) + offered.subrange(
            sends.last().from as int,
            sends.last().until(),
        )
    }
}

proof fn lemma_accepted_is_a_prefix<S: UdpSocket>(
    start: S,
    offered: Seq<TxSlot<UdpTransmit<UdpTxBuffer<S>>>>,
    sends: Seq<FlushSend<S>>,
)
    requires
        flush_sends_follow(start, offered, sends),
    ensures
        0 <= flush_end(start, sends).1 <= offered.len(),
        accepted_slots(offered, sends) == offered.take(flush_end(start, sends).1),
    decreases sends.len(),
{
    if sends.len() > 0 {
        let earlier = sends.drop_last();
        let last = sends.len() - 1;
        assert(flush_send_follows(start, offered, sends, last));
        assert forall|i: int| 0 <= i < earlier.len() implies #[trigger] flush_send_follows(
            start,
            offered,
            earlier,
            i,
        ) by {
            assert(flush_send_follows(start, offered, sends, i));
        }
        lemma_accepted_is_a_prefix(start, offered, earlier);
        assert(accepted_slots(offered, sends) =~= offered.take(flush_end(start, sends).1));
    } else {
        assert(offered.take(0) =~= Seq::empty());
    }
}

/// The steps of a transmission that went through, from the socket `start` to `end`: a
/// flush, its notification, a reclaim, a second flush and its notification.
pub open spec fn transmit_steps<S: UdpSocket>(
    start: S,
    end: S,
    offered: Seq<TxSlot<UdpTransmit<UdpTxBuffer<S>>>>,
    middle: Seq<TxSlot<UdpTransmit<UdpTxBuffer<S>>>>,
    left: Seq<TxSlot<UdpTransmit<UdpTxBuffer<S>>>>,
    told: Set<Notification<S>>,
    first: Seq<FlushSend<S>>,
    second: Seq<FlushSend<S>>,
) -> bool {
    exists|flushed: S, asked: S, given: S, again: S, completed: usize|
        {
            &&& #[trigger] flush_run(
                start,
                flushed,
                offered,
                middle,
                first,
                Ok::<(), SendError>(()),
            )
            &&& notified_after(flushed, asked, middle.len() < offered.len(), told)
            &&& #[trigger] S::may_reclaim(asked, given, Ok::<usize, Error>(completed))
            &&& #[trigger] flush_run(given, again, middle, left, second, Ok::<(), SendError>(()))
            &&& notified_after(again, end, left.len() < middle.len(), told)
        }
}

/// A transmission that went through, from the socket `start` to `end`, got exactly
/// `accepted` of `offered` accepted and left `left`.
pub open spec fn sends_accepted<S: UdpSocket>(
    start: S,
    end: S,
    offered: Seq<TxSlot<UdpTransmit<UdpTxBuffer<S>>>>,
    left: Seq<TxSlot<UdpTransmit<UdpTxBuffer<S>>>>,
    told: Set<Notification<S>>,
    accepted: Seq<TxSlot<UdpTransmit<UdpTxBuffer<S>>>>,
) -> bool {
    exists|middle: Seq<TxSlot<UdpTransmit<UdpTxBuffer<S>>>>, first: Seq<FlushSend<S>>, second: Seq<FlushSend<S>>|
        {
            &&& #[trigger] transmit_steps(start, end, offered, middle, left, told, first, second)
            &&& accepted == accepted_slots(offered, first) + accepted_slots(middle, second)
        }
}

/// What a transmission takes from the pending packets was accepted by the socket, each
/// packet once and in order, and the rest stays pending.
pub proof fn law_transmission_keeps_order<S: UdpSocket>(
    start: S,
    end: S,
    offered: Seq<TxSlot<UdpTransmit<UdpTxBuffer<S>>>>,
    left: Seq<TxSlot<UdpTransmit<UdpTxBuffer<S>>>>,
    told: Set<Notification<S>>,
    progressed: bool,
)
    requires
        transmitted(start, end, offered, left, told, Ok::<bool, AsyncUdpError>(progressed)),
    ensures
        exists|accepted: Seq<TxSlot<UdpTransmit<UdpTxBuffer<S>>>>| #[trigger]
            sends_accepted(start, end, offered, left, told, accepted),
        forall|accepted: Seq<TxSlot<UdpTransmit<UdpTxBuffer<S>>>>| #[trigger]
            sends_accepted(start, end, offered, left, told, accepted) ==> accepted + left
                == offered,
{
    let (reached, given, middle, completed, second) = choose|
        reached: S,
        given: S,
        middle: Seq<TxSlot<UdpTransmit<UdpTxBuffer<S>>>>,
        completed: usize,
        second: Result<bool, AsyncUdpError>,
    |
        {
            &&& #[trigger] flushed_twice(
                start,
                reached,
                given,
                end,
                offered,
                middle,
                left,
                told,
                completed,
                second,
            )
            &&& Ok::<bool, AsyncUdpError>(progressed) == (match second {
                Ok(sent) => Ok::<bool, AsyncUdpError>(
                    middle.len() < offered.len() || completed != 0 || sent,
                ),
                Err(error) => Err::<bool, AsyncUdpError>(error),
            })
        };
    let flushed = choose|flushed: S|
        {
            &&& #[trigger] flush_ran(start, flushed, offered, middle, Ok::<(), SendError>(()))
            &&& notified_after(flushed, reached, middle.len() < offered.len(), told)
        };
    let again = choose|again: S|
        {
            &&& #[trigger] flush_ran(given, again, middle, left, Ok::<(), SendError>(()))
            &&& notified_after(again, end, left.len() < middle.len(), told)
        };
    let first_sends = choose|sends: Seq<FlushSend<S>>| #[trigger]
        flush_run(start, flushed, offered, middle, sends, Ok::<(), SendError>(()));
    let second_sends = choose|sends: Seq<FlushSend<S>>| #[trigger]
        flush_run(given, again, middle, left, sends, Ok::<(), SendError>(()));
    assert(flush_run(start, flushed, offered, middle, first_sends, Ok::<(), SendError>(())));
    assert(S::may_reclaim(reached, given, Ok::<usize, Error>(completed)));
    assert(flush_run(given, again, middle, left, second_sends, Ok::<(), SendError>(())));
    assert(transmit_steps(start, end, offered, middle, left, told, first_sends, second_sends));
    assert(sends_accepted(
        start,
        end,
        offered,
        left,
        told,
        accepted_slots(offered, first_sends) + accepted_slots(middle, second_sends),
    ));
    assert forall|accepted: Seq<TxSlot<UdpTransmit<UdpTxBuffer<S>>>>| #[trigger]
        sends_accepted(start, end, offered, left, told, accepted) implies accepted + left
        == offered by {
        lemma_accepted_and_left(start, end, offered, left, told, accepted);
    }
}

proof fn lemma_accepted_and_left<S: UdpSocket>(
    start: S,
    end: S,
    offered: Seq<TxSlot<UdpTransmit<UdpTxBuffer<S>>>>,
    left: Seq<TxSlot<UdpTransmit<UdpTxBuffer<S>>>>,
    told: Set<Notification<S>>,
    accepted: Seq<TxSlot<UdpTransmit<UdpTxBuffer<S>>>>,
)
    requires
        sends_accepted(start, end, offered, left, told, accepted),
    ensures
        accepted + left == offered,
{
    let (middle, first, second) = choose|
        middle: Seq<TxSlot<UdpTransmit<UdpTxBuffer<S>>>>,
        first: Seq<FlushSend<S>>,
        second: Seq<FlushSend<S>>,
    |
        {
            &&& #[trigger] transmit_steps(start, end, offered, middle, left, told, first, second)
            &&& accepted == accepted_slots(offered, first) + accepted_slots(middle, second)
        };
    let (flushed, asked, given, again, completed) = choose|
        flushed: S,
        asked: S,
        given: S,
        again: S,
        completed: usize,
    |
        {
            &&& #[trigger] flush_run(
                start,
                flushed,
                offered,
                middle,
                first,
                Ok::<(), SendError>(()),
            )
            &&& notified_after(flushed, asked, middle.len() < offered.len(), told)
            &&& #[trigger] S::may_reclaim(asked, given, Ok::<usize, Error>(completed))
            &&& #[trigger] flush_run(given, again, middle, left, second, Ok::<(), SendError>(()))
            &&& notified_after(again, end, left.len() < middle.len(), told)
        };
    lemma_accepted_is_a_prefix(start, offered, first);
    lemma_accepted_is_a_prefix(given, middle, second);
    assert(accepted + left =~= offered);
}

/// What happened to the pending packets of an actor.
#[verifier::reject_recursive_types(S)]
pub enum RunEvent<S: UdpSocket> {
    /// A command was carried out.
    Command(ActorCommand<S>),
    /// The actor transmitted.
    Transmit {
        /// The socket before.
        start: S,
        /// The socket after.
        end: S,
        /// The notifications.
        told: Set<Notification<S>>,
    },
    /// Neither.
    Other,
}

/// `command` queues `queued`: its packets in order, each as its metadata asks.
pub open spec fn queued_by<S: UdpSocket>(
    command: ActorCommand<S>,
    queued: Seq<TxSlot<UdpTransmit<UdpTxBuffer<S>>>>,
) -> bool {
    match command {
        ActorCommand::SendBuffers { buffers, meta } => sends_buffers(queued, buffers@, meta),
        ActorCommand::SendPackets { packets } => sends_packets(queued, packets@),
        ActorCommand::Allocate { .. } => queued.len() == 0,
        ActorCommand::Shutdown => queued.len() == 0,
    }
}

/// One step of a run queued `queued` and got `accepted` accepted.
pub open spec fn run_step<S: UdpSocket>(
    before: UdpActor<S>,
    after: UdpActor<S>,
    event: RunEvent<S>,
    queued: Seq<TxSlot<UdpTransmit<UdpTxBuffer<S>>>>,
    accepted: Seq<TxSlot<UdpTransmit<UdpTxBuffer<S>>>>,
) -> bool {
    match event {
        RunEvent::Command(command) => {
            &&& queued_by(command, queued)
            &&& before.pending().is_prefix_of(after.pending())
            &&& queued == after.pending().skip(before.pending().len() as int)
            &&& accepted.len() == 0
        },
        RunEvent::Transmit { start, end, told } => {
            &&& queued.len() == 0
            &&& sends_accepted(start, end, before.pending(), after.pending(), told, accepted)
        },
        RunEvent::Other => {
            &&& after.pending() == before.pending()
            &&& queued.len() == 0
            &&& accepted.len() == 0
        },
    }
}

/// Nothing that is queued gets lost, doubled or reordered: at every point of a run the
/// packets that were queued are those that the socket accepted, followed by those that
/// are pending. When the run is finished, as it is before an actor that was asked to stop
/// ends, the socket has accepted every queued packet once and in order.
pub proof fn law_nothing_queued_is_lost<S: UdpSocket>(
    actors: Seq<UdpActor<S>>,
    events: Seq<RunEvent<S>>,
    queued: Seq<Seq<TxSlot<UdpTransmit<UdpTxBuffer<S>>>>>,
    accepted: Seq<Seq<TxSlot<UdpTransmit<UdpTxBuffer<S>>>>>,
)
    requires
        actors.len() == events.len() + 1,
        queued.len() == events.len(),
        accepted.len() == events.len(),
        actors[0].pending().len() == 0,
        forall|i: int|
            0 <= i < events.len() ==> run_step(
                actors[i],
                actors[i + 1],
                #[trigger] events[i],
                queued[i],
                accepted[i],
            ),
    ensures
        queued.flatten_alt() == accepted.flatten_alt() + actors.last().pending(),
        actors.last().finished() ==> accepted.flatten_alt() == queued.flatten_alt(),
    decreases events.len(),
{
    if events.len() == 0 {
        assert(accepted.flatten_alt() + actors.last().pending() =~= queued.flatten_alt());
    } else {
        let last = events.len() - 1;
        let earlier_actors = actors.drop_last();
        let earlier_events = events.drop_last();
        let earlier_queued = queued.drop_last();
        let earlier_accepted = accepted.drop_last();
        assert forall|i: int| 0 <= i < earlier_events.len() implies run_step(
            earlier_actors[i],
            earlier_actors[i + 1],
            #[trigger] earlier_events[i],
            earlier_queued[i],
            earlier_accepted[i],
        ) by {
            assert(earlier_events[i] == events[i]);
        }
        law_nothing_queued_is_lost(
            earlier_actors,
            earlier_events,
            earlier_queued,
            earlier_accepted,
        );
        let before = actors[last].pending();
        let after = actors[last + 1].pending();
        assert(run_step(actors[last], actors[last + 1], events[last], queued[last], accepted[last]));
        if let RunEvent::Transmit { start, end, told } = events[last] {
            lemma_accepted_and_left(start, end, before, after, told, accepted[last]);
        }
        assert(before + queued[last] =~= accepted[last] + after);
        assert(queued.flatten_alt() =~= earlier_queued.flatten_alt() + queued[last]);
        assert(accepted.flatten_alt() =~= earlier_accepted.flatten_alt() + accepted[last]);
        assert(queued.flatten_alt() =~= accepted.flatten_alt() + after);
    }
    assert(actors.last().finished() ==> accepted.flatten_alt() + actors.last().pending()
        =~= accepted.flatten_alt());
}

/// Settles an attempt to queue `count` items for the actor. A closed actor gives them
/// back: they return to `source`, which had been emptied for the attempt.
pub fn after_queueing<T>(source: &mut Vec<T>, returned: Option<Vec<T>>, count: usize) -> (r: Result<
    usize,
    ActorClosed,
>)
    requires
        old(source)@.len() == 0,
    ensures
        match returned {
            None => r == Ok::<usize, ActorClosed>(count) && final(source)@ == old(source)@,
            Some(back) => r == Err::<usize, ActorClosed>(ActorClosed) && final(source)@ == back@,
        },
{
    match returned {
        None => Ok(count),
        Some(back) => {
            let mut back = back;
            let ghost items = back@;
            source.append(&mut back);
            assert(source@ =~= items);
            Err(ActorClosed)
        },
    }
}

/// An actor stops only when everything is sent and it was told to, or nobody can send
/// commands and nobody takes received batches any more. Then it does stop. Until then it
/// runs again at once where something was done, and otherwise waits, for commands too as
/// long as there can be any.
pub proof fn law_actors_run_while_they_are_used<S: UdpSocket>(
    delivered: Option<bool>,
    r: ActorWait,
)
    ensures
        forall|actor: &mut UdpActor<S>| #[trigger]
            call_ensures(UdpActor::<S>::end_pass, (actor, delivered), r) ==> {
                let in_use = final(actor).is_commands_open() || final(actor).is_rx_open();
                let told = final(actor).is_shutdown_requested();
                &&& !told && in_use ==> r != ActorWait::Finish
                &&& final(actor).pending().len() > 0 ==> r != ActorWait::Finish
                &&& (told || !in_use) && final(actor).pending().len() == 0 ==> r
                    == ActorWait::Finish
                &&& r != ActorWait::Finish ==> (r == ActorWait::Run <==> actor.has_progressed())
                &&& r == ActorWait::CommandOrReadable ==> final(actor).is_commands_open() && !told
                &&& r == ActorWait::Readable ==> !final(actor).is_commands_open() || told
            },
        forall|actor: &mut UdpActor<S>| #[trigger]
            call_ensures(UdpActor::<S>::end_pass, (actor, delivered), r) ==> {
                &&& final(actor).is_commands_open() == actor.is_commands_open()
                &&& final(actor).is_shutdown_requested() == actor.is_shutdown_requested()
                &&& final(actor).pending() == actor.pending()
                &&& delivered == Some(false) ==> !final(actor).is_rx_open()
                &&& delivered != Some(false) ==> final(actor).is_rx_open() == actor.is_rx_open()
            },
{
}

/// An actor that says it is done has sent everything, and was told to stop or is of no
/// use to anybody.
pub proof fn law_done_means_sent_and_unused<S: UdpSocket>(actor: &UdpActor<S>, r: bool)
    requires
        call_ensures(UdpActor::<S>::is_finished, (actor,), r),
    ensures
        r ==> actor.pending().len() == 0,
        r && !actor.is_shutdown_requested() ==> !actor.is_commands_open() && !actor.is_rx_open(),
        !r && actor.pending().len() == 0 ==> !actor.is_shutdown_requested() && (
        actor.is_commands_open() || actor.is_rx_open()),
{
}

/// An actor takes commands as long as somebody can send them, it was not told to stop and
/// fewer packets are pending than it was configured for. It receives as long as somebody
/// takes what comes and it was not told to stop.
pub proof fn law_actors_take_what_they_can_serve<S: UdpSocket>(actor: &UdpActor<S>, r: bool)
    ensures
        call_ensures(UdpActor::<S>::wants_command, (actor,), r) ==> {
            &&& r ==> actor.is_commands_open() && !actor.is_shutdown_requested()
                && actor.pending().len() < actor.config_spec().pending_tx_capacity
            &&& !r ==> !actor.is_commands_open() || actor.is_shutdown_requested()
                || actor.pending().len() >= actor.config_spec().pending_tx_capacity
        },
        call_ensures(UdpActor::<S>::wants_receive, (actor,), r) ==> {
            &&& r ==> actor.is_rx_open() && !actor.is_shutdown_requested()
            &&& !r ==> !actor.is_rx_open() || actor.is_shutdown_requested()
        },
        call_ensures(UdpActor::<S>::is_idle, (actor,), r) ==> (r <==> actor.outstanding() == 0),
{
}

/// A new actor is open on both sides, was not told to stop, holds nothing and keeps the
/// sizes that it was given, but none below one.
pub proof fn law_new_actors_are_open_and_empty<S: UdpSocket>(config: ActorConfig, r: UdpActor<S>)
    requires
        call_ensures(UdpActor::<S>::new, (config,), r),
    ensures
        r.is_commands_open() && r.is_rx_open() && !r.is_shutdown_requested(),
        r.pending().len() == 0 && r.outstanding() == 0,
        config.recv_batch_size > 0 ==> r.config_spec().recv_batch_size == config.recv_batch_size,
        config.command_queue_capacity > 0 ==> r.config_spec().command_queue_capacity
            == config.command_queue_capacity,
        config.rx_queue_capacity > 0 ==> r.config_spec().rx_queue_capacity
            == config.rx_queue_capacity,
        config.pending_tx_capacity > 0 ==> r.config_spec().pending_tx_capacity
            == config.pending_tx_capacity,
        config.recv_batch_size == 0 ==> r.config_spec().recv_batch_size == 1,
        config.command_queue_capacity == 0 ==> r.config_spec().command_queue_capacity == 1,
        config.rx_queue_capacity == 0 ==> r.config_spec().rx_queue_capacity == 1,
        config.pending_tx_capacity == 0 ==> r.config_spec().pending_tx_capacity == 1,
{
}

/// Buffers that are sent queue up behind what is pending, one packet each, in order, with
/// the bytes of the buffer and all that the metadata asks for. Their leases come back.
pub proof fn law_sent_buffers_queue_in_order<S: UdpSocket>(
    buffers: Vec<ActorTxBuffer<S>>,
    meta: ActorTxMeta,
    r: CommandOutcome<S>,
)
    ensures
        forall|actor: &mut UdpActor<S>, socket: &mut S| #[trigger]
            call_ensures(
                UdpActor::<S>::handle_command,
                (actor, socket, ActorCommand::SendBuffers { buffers, meta }),
                r,
            ) ==> {
                let before = actor.pending();
                let after = final(actor).pending();
                &&& *final(socket) == *socket
                &&& after.len() == before.len() + buffers@.len()
                &&& forall|i: int| 0 <= i < before.len() ==> #[trigger] after[i] == before[i]
                &&& forall|i: int|
                    before.len() <= i < after.len() ==> {
                        &&& (#[trigger] after[i]) matches TxSlot::Ready(tx)
                        &&& tx.packet.bytes() == buffers@[i - before.len()]@.bytes()
                        &&& tx.destination == meta.destination
                        &&& tx.source_ip == meta.source_ip
                        &&& tx.source_port == meta.source_port
                        &&& tx.ecn == meta.ecn
                        &&& tx.gso_segment_size == meta.gso_segment_size
                    }
                &&& actor.outstanding() >= buffers@.len() ==> final(actor).outstanding()
                    == actor.outstanding() - buffers@.len()
                &&& final(actor).is_commands_open() == actor.is_commands_open()
                &&& final(actor).is_shutdown_requested() == actor.is_shutdown_requested()
            },
{
    assert forall|actor: &mut UdpActor<S>, socket: &mut S| #[trigger]
        call_ensures(
            UdpActor::<S>::handle_command,
            (actor, socket, ActorCommand::SendBuffers { buffers, meta }),
            r,
        ) implies {
        let before = actor.pending();
        let after = final(actor).pending();
        &&& after.len() == before.len() + buffers@.len()
        &&& forall|i: int|
            before.len() <= i < after.len() ==> {
                &&& (#[trigger] after[i]) matches TxSlot::Ready(tx)
                &&& tx.packet.bytes() == buffers@[i - before.len()]@.bytes()
                &&& tx.destination == meta.destination
                &&& tx.source_ip == meta.source_ip
                &&& tx.source_port == meta.source_port
                &&& tx.ecn == meta.ecn
                &&& tx.gso_segment_size == meta.gso_segment_size
            }
    } by {
        let before = actor.pending();
        let after = final(actor).pending();
        let added = after.skip(before.len() as int);
        assert forall|i: int| before.len() <= i < after.len() implies #[trigger] after[i]
            == added[i - before.len()] by {}
    }
}

/// Packets that are sent queue up behind what is pending, in order, each as it is.
pub proof fn law_sent_packets_queue_in_order<S: UdpSocket>(
    packets: Vec<ActorTxPacket<S>>,
    r: CommandOutcome<S>,
)
    ensures
        forall|actor: &mut UdpActor<S>, socket: &mut S| #[trigger]
            call_ensures(
                UdpActor::<S>::handle_command,
                (actor, socket, ActorCommand::SendPackets { packets }),
                r,
            ) ==> {
                let before = actor.pending();
                let after = final(actor).pending();
                &&& *final(socket) == *socket
                &&& after.len() == before.len() + packets@.len()
                &&& forall|i: int| 0 <= i < before.len() ==> #[trigger] after[i] == before[i]
                &&& forall|i: int|
                    before.len() <= i < after.len() ==> {
                        let packet = packets@[i - before.len()];
                        &&& (#[trigger] after[i]) matches TxSlot::Ready(tx)
                        &&& tx.packet == packet.packet
                        &&& tx.destination == packet.destination
                        &&& tx.source_ip == packet.source_ip
                        &&& tx.source_port == packet.source_port
                        &&& tx.ecn == packet.ecn
                        &&& tx.gso_segment_size == packet.gso_segment_size
                    }
                &&& actor.outstanding() >= packets@.len() ==> final(actor).outstanding()
                    == actor.outstanding() - packets@.len()
            },
{
    assert forall|actor: &mut UdpActor<S>, socket: &mut S| #[trigger]
        call_ensures(
            UdpActor::<S>::handle_command,
            (actor, socket, ActorCommand::SendPackets { packets }),
            r,
        ) implies {
        let before = actor.pending();
        let after = final(actor).pending();
        &&& after.len() == before.len() + packets@.len()
        &&& forall|i: int|
            before.len() <= i < after.len() ==> {
                let packet = packets@[i - before.len()];
                &&& (#[trigger] after[i]) matches TxSlot::Ready(tx)
                &&& tx.packet == packet.packet
                &&& tx.destination == packet.destination
                &&& tx.source_ip == packet.source_ip
                &&& tx.source_port == packet.source_port
                &&& tx.ecn == packet.ecn
                &&& tx.gso_segment_size == packet.gso_segment_size
            }
    } by {
        let before = actor.pending();
        let after = final(actor).pending();
        let added = after.skip(before.len() as int);
        assert forall|i: int| before.len() <= i < after.len() implies #[trigger] after[i]
            == added[i - before.len()] by {}
    }
}

/// A request to stop closes the commands and is remembered. It drops nothing.
pub proof fn law_stop_requests_drop_nothing<S: UdpSocket>(r: CommandOutcome<S>)
    ensures
        forall|actor: &mut UdpActor<S>, socket: &mut S| #[trigger]
            call_ensures(
                UdpActor::<S>::handle_command,
                (actor, socket, ActorCommand::Shutdown),
                r,
            ) ==> {
                &&& final(actor).is_shutdown_requested() && !final(actor).is_commands_open()
                &&& final(actor).pending() == actor.pending()
                &&& final(actor).outstanding() == actor.outstanding()
                &&& final(actor).is_rx_open() == actor.is_rx_open()
                &&& *final(socket) == *socket
            },
{
}

/// Buffers that are asked for come from the socket, are the ones it gave, in order, and
/// each of them is counted as lent. A failure of the socket is passed on and lends none.
pub proof fn law_allocated_buffers_are_lent<S: UdpSocket>(max: usize, r: CommandOutcome<S>)
    ensures
        forall|actor: &mut UdpActor<S>, socket: &mut S| #[trigger]
            call_ensures(
                UdpActor::<S>::handle_command,
                (actor, socket, ActorCommand::Allocate { max }),
                r,
            ) ==> exists|fresh: Seq<UdpTxBufferMut<S>>, result: Result<usize, Error>|
                {
                    &&& #[trigger] S::may_allocate(*socket, *final(socket), max, fresh, result)
                    &&& final(actor).pending() == actor.pending()
                    &&& match result {
                        Ok(_) => {
                            &&& r matches CommandOutcome::Reply(Ok(buffers))
                            &&& buffers@.len() == fresh.len()
                            &&& forall|i: int|
                                0 <= i < fresh.len() ==> (#[trigger] buffers@[i])@ == fresh[i]
                            &&& final(actor).outstanding() == actor.outstanding() + fresh.len()
                        },
                        Err(error) => {
                            &&& r matches CommandOutcome::Reply(Err(reported))
                            &&& reported == error
                            &&& final(actor).outstanding() == actor.outstanding()
                        },
                    }
                },
{
}

/// What an actor receives is what its socket delivered, packet by packet and in order,
/// and each packet is counted as lent. A socket that has nothing gives no batch and no
/// error.
pub proof fn law_received_batches_are_what_came<S: UdpSocket>(
    r: Result<Option<ActorRxBatch<S>>, AsyncUdpError>,
)
    ensures
        forall|actor: &mut UdpActor<S>, socket: &mut S| #[trigger]
            call_ensures(UdpActor::<S>::receive, (actor, socket), r) ==> exists|
                received: Seq<UdpReceive<UdpRxBuffer<S>, S::RecvMeta>>,
                result: Result<usize, Error>,
            |
                {
                    &&& #[trigger] S::may_recv(*socket, *final(socket), received, result)
                    &&& final(actor).pending() == actor.pending()
                    &&& match result {
                        Ok(count) => if count == 0 {
                            r == Ok::<Option<ActorRxBatch<S>>, AsyncUdpError>(None)
                        } else {
                            &&& r matches Ok(Some(batch))
                            &&& batch@.len() == count
                            &&& batch@.len() == received.len()
                            &&& forall|i: int|
                                0 <= i < received.len() ==> {
                                    &&& (#[trigger] batch@[i]).packet == received[i].packet
                                    &&& batch@[i].meta == received[i].meta
                                }
                            &&& final(actor).outstanding() == actor.outstanding() + count
                        },
                        Err(Error::WouldBlock) => r == Ok::<
                            Option<ActorRxBatch<S>>,
                            AsyncUdpError,
                        >(None),
                        Err(error) => r == Err::<Option<ActorRxBatch<S>>, AsyncUdpError>(
                            AsyncUdpError::Socket(error),
                        ),
                    }
                },
{
}

/// A lease that comes back is one less out, and only the last one is said to be the last.
pub proof fn law_released_leases_are_counted<S: UdpSocket>(lease: ActorBufferLease, r: bool)
    ensures
        forall|actor: &mut UdpActor<S>| #[trigger]
            call_ensures(UdpActor::<S>::release, (actor, lease), r) && actor.outstanding() > 0 ==> {
                &&& final(actor).outstanding() == actor.outstanding() - 1
                &&& r <==> final(actor).outstanding() == 0
            },
{
}

/// A buffer that is frozen for a destination keeps its bytes and asks for nothing but the
/// destination.
pub proof fn law_frozen_buffers_keep_their_bytes<S: UdpSocket>(
    buffer: ActorTxBuffer<S>,
    destination: SocketAddr,
    r: ActorTxPacket<S>,
)
    requires
        call_ensures(ActorTxBuffer::<S>::freeze, (buffer, destination), r),
    ensures
        r.packet.bytes() == buffer@.bytes(),
        r.destination == destination,
        r.source_ip is None && r.source_port is None && r.ecn is None,
        r.gso_segment_size is None,
{
}

/// Items that a closed actor gives back are all there again, and nothing counts as queued.
pub proof fn law_closed_actors_give_everything_back<T>(
    returned: Option<Vec<T>>,
    count: usize,
    r: Result<usize, ActorClosed>,
)
    ensures
        forall|source: &mut Vec<T>| #[trigger]
            call_ensures(after_queueing::<T>, (source, returned, count), r) ==> {
                &&& r is Ok <==> returned is None
                &&& r matches Ok(queued) ==> queued == count
                &&& returned matches Some(back) ==> final(source)@ == back@
            },
{
}

/// A limit of zero counts as one, and every other limit stays as it is. Without a
/// configuration an actor receives 64 packets at a time and queues 1024 of everything.
pub proof fn law_limits_are_at_least_one(config: ActorConfig, r: ActorConfig)
    ensures
        call_ensures(ActorConfig::normalize, (config,), r) ==> {
            &&& r.recv_batch_size == if config.recv_batch_size > 0 {
                config.recv_batch_size
            } else {
                1
            }
            &&& r.command_queue_capacity == if config.command_queue_capacity > 0 {
                config.command_queue_capacity
            } else {
                1
            }
            &&& r.rx_queue_capacity == if config.rx_queue_capacity > 0 {
                config.rx_queue_capacity
            } else {
                1
            }
            &&& r.pending_tx_capacity == if config.pending_tx_capacity > 0 {
                config.pending_tx_capacity
            } else {
                1
            }
        },
        call_ensures(ActorConfig::default, (), r) ==> r.recv_batch_size == 64
            && r.command_queue_capacity == 1024 && r.rx_queue_capacity == 1024
            && r.pending_tx_capacity == 1024,
{
}

/// A transmission takes packets from the front, in order. It reports progress where any
/// left, and without an error it leaves packets only where the socket took none of exactly
/// those.
pub proof fn law_transmissions_take_the_front<S: UdpSocket>(r: Result<bool, AsyncUdpError>)
    ensures
        forall|actor: &mut UdpActor<S>, socket: &mut S|
            #![trigger call_ensures(UdpActor::<S>::transmit, (actor, socket), r)]
            call_ensures(UdpActor::<S>::transmit, (actor, socket), r) ==> {
                let before = actor.pending();
                let after = final(actor).pending();
                &&& after.len() <= before.len()
                &&& after == before.skip(before.len() - after.len())
                &&& final(actor).outstanding() == actor.outstanding()
                &&& r == Ok::<bool, AsyncUdpError>(false) ==> after == before
                &&& r is Ok && after.len() > 0 ==> exists|asked: S, refused: S| #[trigger]
                    S::may_send(asked, refused, after, Ok::<usize, SendError>(0))
            },
{
    assert forall|actor: &mut UdpActor<S>, socket: &mut S|
        #![trigger call_ensures(UdpActor::<S>::transmit, (actor, socket), r)]
        call_ensures(UdpActor::<S>::transmit, (actor, socket), r) implies {
        let before = actor.pending();
        let after = final(actor).pending();
        &&& after.len() <= before.len()
        &&& after == before.skip(before.len() - after.len())
        &&& final(actor).outstanding() == actor.outstanding()
        &&& r == Ok::<bool, AsyncUdpError>(false) ==> after == before
        &&& r is Ok && after.len() > 0 ==> exists|asked: S, refused: S| #[trigger]
            S::may_send(asked, refused, after, Ok::<usize, SendError>(0))
    } by {
        let before = actor.pending();
        let after = final(actor).pending();
        let sent = choose|sent: nat|
            {
                &&& sent <= before.len()
                &&& after == #[trigger] before.skip(sent as int)
                &&& r matches Ok(progressed) ==> (sent > 0 ==> progressed)
            };
        if sent == 0 {
            assert(before.skip(0) =~= before);
        }
        if r is Ok && after.len() > 0 {
            let told = choose|told: Set<Notification<S>>| #[trigger]
                transmitted(*socket, *final(socket), before, after, told, r);
            lemma_refused_at_the_end(*socket, *final(socket), before, after, told, r);
        }
    }
}

proof fn lemma_refused_at_the_end<S: UdpSocket>(
    start: S,
    end: S,
    offered: Seq<TxSlot<UdpTransmit<UdpTxBuffer<S>>>>,
    left: Seq<TxSlot<UdpTransmit<UdpTxBuffer<S>>>>,
    told: Set<Notification<S>>,
    r: Result<bool, AsyncUdpError>,
)
    requires
        transmitted(start, end, offered, left, told, r),
        r is Ok,
        left.len() > 0,
    ensures
        exists|asked: S, refused: S| #[trigger]
            S::may_send(asked, refused, left, Ok::<usize, SendError>(0)),
{
    let (reached, given, middle, completed, second) = choose|
        reached: S,
        given: S,
        middle: Seq<TxSlot<UdpTransmit<UdpTxBuffer<S>>>>,
        completed: usize,
        second: Result<bool, AsyncUdpError>,
    |
        {
            &&& #[trigger] flushed_twice(
                start,
                reached,
                given,
                end,
                offered,
                middle,
                left,
                told,
                completed,
                second,
            )
            &&& r == (match second {
                Ok(sent) => Ok::<bool, AsyncUdpError>(
                    middle.len() < offered.len() || completed != 0 || sent,
                ),
                Err(error) => Err::<bool, AsyncUdpError>(error),
            })
        };
    assert(second is Ok);
    let flushed = choose|flushed: S|
        {
            &&& #[trigger] flush_ran(given, flushed, middle, left, Ok::<(), SendError>(()))
            &&& notified_after(flushed, end, second->Ok_0, told)
        };
    law_flushes_go_on_until_refused(given, flushed, middle, left, Ok::<(), SendError>(()));
    let asked = choose|asked: S| #[trigger]
        S::may_send(asked, flushed, left, Ok::<usize, SendError>(0));
    assert(S::may_send(asked, flushed, left, Ok::<usize, SendError>(0)));
}

/// A pass of an actor lends exactly what it received, receives only while somebody listens
/// and no stop was asked for, and counts as progress where anything was received or sent.
pub proof fn law_passes_lend_what_they_received<S: UdpSocket>(
    r: Result<Option<ActorRxBatch<S>>, AsyncUdpError>,
)
    ensures
        forall|actor: &mut UdpActor<S>, socket: &mut S|
            #![trigger call_ensures(UdpActor::<S>::run_io, (actor, socket), r)]
            call_ensures(UdpActor::<S>::run_io, (actor, socket), r) ==> {
                &&& r matches Ok(Some(batch)) ==> {
                    &&& batch@.len() > 0
                    &&& final(actor).outstanding() == actor.outstanding() + batch@.len()
                    &&& actor.is_rx_open() && !actor.is_shutdown_requested()
                    &&& final(actor).has_progressed()
                }
                &&& r == Ok::<Option<ActorRxBatch<S>>, AsyncUdpError>(None) || r is Err
                    ==> final(actor).outstanding() == actor.outstanding()
                &&& final(actor).pending().len() <= actor.pending().len()
                &&& r is Ok && final(actor).pending().len() < actor.pending().len()
                    ==> final(actor).has_progressed()
                &&& actor.has_progressed() ==> final(actor).has_progressed()
                &&& final(actor).is_rx_open() == actor.is_rx_open()
                &&& final(actor).is_commands_open() == actor.is_commands_open()
                &&& final(actor).is_shutdown_requested() == actor.is_shutdown_requested()
            },
{
}

/// A pass begins without progress. Losing the command side closes it and nothing else.
pub proof fn law_commands_close_alone<S: UdpSocket>(count: usize, lends: bool)
    ensures
        forall|actor: &mut UdpActor<S>| #[trigger]
            call_ensures(UdpActor::<S>::begin_pass, (actor,), ()) ==> {
                &&& !final(actor).has_progressed()
                &&& final(actor).pending() == actor.pending()
                &&& final(actor).outstanding() == actor.outstanding()
                &&& final(actor).is_rx_open() == actor.is_rx_open()
                &&& final(actor).is_commands_open() == actor.is_commands_open()
                &&& final(actor).is_shutdown_requested() == actor.is_shutdown_requested()
            },
        forall|actor: &mut UdpActor<S>| #[trigger]
            call_ensures(UdpActor::<S>::commands_disconnected, (actor,), ()) ==> {
                &&& !final(actor).is_commands_open()
                &&& final(actor).is_rx_open() == actor.is_rx_open()
                &&& final(actor).is_shutdown_requested() == actor.is_shutdown_requested()
                &&& final(actor).pending() == actor.pending()
                &&& final(actor).outstanding() == actor.outstanding()
            },
        forall|actor: &UdpActor<S>| #[trigger]
            call_ensures(UdpActor::<S>::can_lend, (actor, count), lends) ==> (lends
                <==> actor.outstanding() + count <= usize::MAX),
{
}

/// What the errors of an actor say.
pub proof fn law_actor_errors_say_what_failed(
    error: &AsyncUdpError,
    closed: &ActorClosed,
    r: String,
)
    ensures
        call_ensures(ActorClosed::message, (closed,), r) ==> r@ == "UDP actor is closed"@,
        call_ensures(AsyncUdpError::message, (error,), r) ==> {
            &&& *error is MissingWakeHandle ==> r@
                == "wait-driven socket did not expose a wake fd"@
            &&& *error matches AsyncUdpError::Io(io) ==> r@ == "async fd operation failed: "@
                + io.text@
            &&& *error is ActorClosed ==> r@ == "UDP actor is closed"@
            &&& *error matches AsyncUdpError::Socket(cause) ==> r@
                == "UDP socket operation failed: "@ + cause.message_text()
            &&& *error matches AsyncUdpError::Send(cause) ==> r@ == "UDP send failed: "@
                + cause.message_text()
            &&& *error matches AsyncUdpError::Join(text) ==> r@ == "UDP actor task failed: "@
                + text@
        },
{
}

} // verus!
