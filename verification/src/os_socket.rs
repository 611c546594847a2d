//! Decisions of the OS UDP socket.
//!
//! The socket's system calls belong to its driver. This module decides which
//! datagrams go into each call, and what its result means for the batch, the
//! buffers and the caller.

use vstd::prelude::*;
use vstd::string::*;

use crate::batch::{prefix_taken, RecvBatch, SendError, TxSlot};
use crate::buffer::{BufferLayout, BufferPool, LayoutFacts, PacketBuffer, contiguous_layout};
use crate::error::Error;
use crate::io::{
    io_error_to_core, is_transient, reports_io_error, transient_kind, IoError, IoErrorKind,
};
use crate::net::{IpAddr, SocketAddr};
use crate::os_buffer::{OsBufferPool, OsPacketBufMut, DEFAULT_POOL_MAX_BUFFERS};
use crate::ring::smaller;
use crate::sys::{IfIndex, QueueAffinity, QueueId, SocketId};
use crate::text::{decimal_text, push_decimal};
use crate::udp::{UdpReceive, UdpRecvMeta, UdpTransmit};

verus! {

/// Default number of datagrams per system call.
pub const DEFAULT_MAX_BATCH: usize = 64;

/// Upper bound on the number of datagrams per system call.
pub const MAX_BATCH_HARD_CAP: usize = 4096;

/// Why a configuration cannot be used.
#[derive(Clone, Copy, Debug, Eq, PartialEq, Structural)]
pub enum OsConfigError {
    /// The batch size is 0 or above [`MAX_BATCH_HARD_CAP`].
    MaxBatch(usize),
    /// The CPU of the affinity hint does not fit the socket option.
    IncomingCpu(u32),
}

impl OsConfigError {
    /// The text that describes this error.
    pub open spec fn message_text(self) -> Seq<char> {
        match self {
            OsConfigError::MaxBatch(max_batch) => {
                "OsUdpSocketConfig::max_batch must be in 1..=4096, got "@ + decimal_text(
                    max_batch as nat,
                )
            },
            OsConfigError::IncomingCpu(_) => "SO_INCOMING_CPU value does not fit c_int"@,
        }
    }

    /// Renders this error for people.
    pub fn message(&self) -> (r: String)
        ensures
            r@ == self.message_text(),
    {
        match self {
            OsConfigError::MaxBatch(max_batch) => {
                let mut out = "OsUdpSocketConfig::max_batch must be in 1..=4096, got ".to_owned();
                push_decimal(&mut out, *max_batch as u64);
                out
            },
            OsConfigError::IncomingCpu(_) => "SO_INCOMING_CPU value does not fit c_int".to_owned(),
        }
    }
}

/// Configuration of an OS UDP socket.
#[derive(Clone, Copy, Debug, Eq, PartialEq, Structural)]
pub struct OsUdpSocketConfig {
    /// Operating-system interface selected for this socket, when known.
    pub if_index: Option<IfIndex>,
    /// Logical queue identifier reported by the socket.
    pub queue_id: QueueId,
    /// CPU affinity hint for the socket's receive queue.
    pub queue_affinity: QueueAffinity,
    /// Buffer layout used for receive buffers.
    pub rx_buffer_layout: BufferLayout,
    /// Buffer layout used for transmit buffers.
    pub tx_buffer_layout: BufferLayout,
    /// Effective UDP payload MTU reported by the socket.
    pub mtu: usize,
    /// Number of datagrams per system call, at most [`MAX_BATCH_HARD_CAP`].
    pub max_batch: usize,
}

impl OsUdpSocketConfig {
    /// Both layouts keep their invariants.
    pub open spec fn wf(self) -> bool {
        self.rx_buffer_layout.wf() && self.tx_buffer_layout.wf()
    }
}

/// `config` is what a socket gets when nothing is asked for.
pub open spec fn is_default_config(config: OsUdpSocketConfig) -> bool {
    &&& config.if_index is None
    &&& config.queue_id.value() == 0
    &&& config.queue_affinity == QueueAffinity::Any
    &&& config.rx_buffer_layout@ == contiguous_layout(2048, 0, 0)
    &&& config.tx_buffer_layout@ == contiguous_layout(2048, 0, 0)
    &&& config.mtu == 1472
    &&& config.max_batch == DEFAULT_MAX_BATCH
}

impl Default for OsUdpSocketConfig {
    fn default() -> (r: Self)
        ensures
            r.wf(),
            is_default_config(r),
    {
        OsUdpSocketConfig {
            if_index: None,
            queue_id: QueueId::new(0),
            queue_affinity: QueueAffinity::Any,
            rx_buffer_layout: BufferLayout::new(2048),
            tx_buffer_layout: BufferLayout::new(2048),
            mtu: 1472,
            max_batch: DEFAULT_MAX_BATCH,
        }
    }
}

/// Builder for an OS UDP socket.
#[derive(Clone, Copy, Debug, Eq, PartialEq, Structural)]
pub struct OsUdpSocketBuilder {
    bind_addr: SocketAddr,
    reuse_port: bool,
    config: OsUdpSocketConfig,
}

impl OsUdpSocketBuilder {
    /// The address to bind to.
    pub closed spec fn bind_addr_spec(self) -> SocketAddr {
        self.bind_addr
    }

    /// Whether other sockets may bind the same address.
    pub closed spec fn reuse_port_spec(self) -> bool {
        self.reuse_port
    }

    /// The configuration collected so far.
    pub closed spec fn config_spec(self) -> OsUdpSocketConfig {
        self.config
    }

    /// Creates a builder that binds a UDP socket to `bind_addr`.
    #[must_use]
    pub fn new(bind_addr: SocketAddr) -> (r: Self)
        ensures
            r.bind_addr_spec() == bind_addr,
            !r.reuse_port_spec(),
            r.config_spec().wf(),
            is_default_config(r.config_spec()),
    {
        OsUdpSocketBuilder { bind_addr, reuse_port: false, config: OsUdpSocketConfig::default() }
    }

    /// Records the operating-system interface selected for this socket.
    #[must_use]
    pub fn if_index(self, if_index: IfIndex) -> (r: Self)
        ensures
            r.bind_addr_spec() == self.bind_addr_spec(),
            r.reuse_port_spec() == self.reuse_port_spec(),
            r.config_spec() == (OsUdpSocketConfig {
                if_index: Some(if_index),
                ..self.config_spec()
            }),
    {
        let mut builder = self;
        builder.config.if_index = Some(if_index);
        builder
    }

    /// Sets the logical queue identifier for the constructed socket.
    #[must_use]
    pub fn queue_id(self, queue_id: QueueId) -> (r: Self)
        ensures
            r.bind_addr_spec() == self.bind_addr_spec(),
            r.reuse_port_spec() == self.reuse_port_spec(),
            r.config_spec() == (OsUdpSocketConfig { queue_id, ..self.config_spec() }),
    {
        let mut builder = self;
        builder.config.queue_id = queue_id;
        builder
    }

    /// Sets the CPU affinity hint for the selected queue.
    #[must_use]
    pub fn queue_affinity(self, queue_affinity: QueueAffinity) -> (r: Self)
        ensures
            r.bind_addr_spec() == self.bind_addr_spec(),
            r.reuse_port_spec() == self.reuse_port_spec(),
            r.config_spec() == (OsUdpSocketConfig { queue_affinity, ..self.config_spec() }),
    {
        let mut builder = self;
        builder.config.queue_affinity = queue_affinity;
        builder
    }

    /// Sets the buffer layout of both pools.
    #[must_use]
    pub fn buffer_layout(self, buffer_layout: BufferLayout) -> (r: Self)
        ensures
            r.bind_addr_spec() == self.bind_addr_spec(),
            r.reuse_port_spec() == self.reuse_port_spec(),
            r.config_spec() == (OsUdpSocketConfig {
                rx_buffer_layout: buffer_layout,
                tx_buffer_layout: buffer_layout,
                ..self.config_spec()
            }),
    {
        let mut builder = self;
        builder.config.rx_buffer_layout = buffer_layout;
        builder.config.tx_buffer_layout = buffer_layout;
        builder
    }

    /// Sets the buffer layout used by the receive path.
    #[must_use]
    pub fn rx_buffer_layout(self, rx_buffer_layout: BufferLayout) -> (r: Self)
        ensures
            r.bind_addr_spec() == self.bind_addr_spec(),
            r.reuse_port_spec() == self.reuse_port_spec(),
            r.config_spec() == (OsUdpSocketConfig { rx_buffer_layout, ..self.config_spec() }),
    {
        let mut builder = self;
        builder.config.rx_buffer_layout = rx_buffer_layout;
        builder
    }

    /// Sets the buffer layout used by the transmit path.
    #[must_use]
    pub fn tx_buffer_layout(self, tx_buffer_layout: BufferLayout) -> (r: Self)
        ensures
            r.bind_addr_spec() == self.bind_addr_spec(),
            r.reuse_port_spec() == self.reuse_port_spec(),
            r.config_spec() == (OsUdpSocketConfig { tx_buffer_layout, ..self.config_spec() }),
    {
        let mut builder = self;
        builder.config.tx_buffer_layout = tx_buffer_layout;
        builder
    }

    /// Sets the effective UDP payload MTU reported by the socket.
    #[must_use]
    pub fn mtu(self, mtu: usize) -> (r: Self)
        ensures
            r.bind_addr_spec() == self.bind_addr_spec(),
            r.reuse_port_spec() == self.reuse_port_spec(),
            r.config_spec() == (OsUdpSocketConfig { mtu, ..self.config_spec() }),
    {
        let mut builder = self;
        builder.config.mtu = mtu;
        builder
    }

    /// Lets other sockets bind the same address, or not.
    #[must_use]
    pub fn reuse_port(self, reuse_port: bool) -> (r: Self)
        ensures
            r.bind_addr_spec() == self.bind_addr_spec(),
            r.reuse_port_spec() == reuse_port,
            r.config_spec() == self.config_spec(),
    {
        let mut builder = self;
        builder.reuse_port = reuse_port;
        builder
    }

    /// Sets the number of datagrams per system call.
    #[must_use]
    pub fn max_batch(self, max_batch: usize) -> (r: Self)
        ensures
            r.bind_addr_spec() == self.bind_addr_spec(),
            r.reuse_port_spec() == self.reuse_port_spec(),
            r.config_spec() == (OsUdpSocketConfig { max_batch, ..self.config_spec() }),
    {
        let mut builder = self;
        builder.config.max_batch = max_batch;
        builder
    }

    /// Returns the address to bind to, whether to share it, and the configuration.
    #[must_use]
    pub fn into_parts(self) -> (r: (SocketAddr, bool, OsUdpSocketConfig))
        ensures
            r.0 == self.bind_addr_spec(),
            r.1 == self.reuse_port_spec(),
            r.2 == self.config_spec(),
    {
        (self.bind_addr, self.reuse_port, self.config)
    }
}

/// The CPU that the kernel should steer a socket's packets to, if the hint names one.
pub open spec fn incoming_cpu_spec(affinity: QueueAffinity) -> Result<Option<i32>, OsConfigError> {
    match affinity {
        QueueAffinity::Core(cpu) => if cpu > i32::MAX {
            Err(OsConfigError::IncomingCpu(cpu))
        } else {
            Ok(Some(cpu as i32))
        },
        _ => Ok(None),
    }
}

/// Returns the value of the incoming-CPU socket option that an affinity hint asks for.
pub fn incoming_cpu(affinity: QueueAffinity) -> (r: Result<Option<i32>, OsConfigError>)
    ensures
        r == incoming_cpu_spec(affinity),
{
    match affinity {
        QueueAffinity::Core(cpu) => if cpu > i32::MAX as u32 {
            Err(OsConfigError::IncomingCpu(cpu))
        } else {
            Ok(Some(cpu as i32))
        },
        _ => Ok(None),
    }
}

/// Why a configuration is refused, if it is.
pub open spec fn config_fault(config: OsUdpSocketConfig) -> Option<OsConfigError> {
    if config.max_batch == 0 || config.max_batch > MAX_BATCH_HARD_CAP {
        Some(OsConfigError::MaxBatch(config.max_batch))
    } else {
        match incoming_cpu_spec(config.queue_affinity) {
            Err(error) => Some(error),
            Ok(_) => None,
        }
    }
}

/// The item asks for something that plain OS sends do not do.
pub open spec fn unsupported_options<B>(tx: UdpTransmit<B>) -> bool {
    tx.source_ip is Some || tx.ecn is Some || tx.gso_segment_size is Some
}

/// Returns whether the item asks for something that plain OS sends do not do.
pub fn has_unsupported_tx_options<B>(tx: &UdpTransmit<B>) -> (r: bool)
    ensures
        r == unsupported_options(*tx),
{
    tx.source_ip.is_some() || tx.ecn.is_some() || tx.gso_segment_size.is_some()
}

/// Why a slot cannot be sent, if it cannot.
pub open spec fn send_fault<B: PacketBuffer>(mtu: usize, slot: TxSlot<UdpTransmit<B>>) -> Option<
    Error,
> {
    match slot {
        TxSlot::Taken => Some(Error::InvalidBatch),
        TxSlot::Ready(tx) => if tx.packet.bytes().len() > mtu {
            Some(Error::OversizeForMtu)
        } else if unsupported_options(tx) {
            Some(Error::InvalidPacket)
        } else {
            None
        },
    }
}

/// Every packet that a batch still holds is consistent.
pub open spec fn send_batch_wf<B: PacketBuffer>(batch: Seq<TxSlot<UdpTransmit<B>>>) -> bool {
    forall|i: int|
        0 <= i < batch.len() ==> ((#[trigger] batch[i]) matches TxSlot::Ready(tx)
            ==> tx.packet.wf())
}

/// Index of the first slot in `at..limit` that cannot be sent, or `limit`.
pub open spec fn sendable_end<B: PacketBuffer>(
    mtu: usize,
    batch: Seq<TxSlot<UdpTransmit<B>>>,
    at: int,
    limit: int,
) -> int
    decreases limit - at,
{
    if at >= limit || send_fault(mtu, batch[at]) is Some {
        at
    } else {
        sendable_end(mtu, batch, at + 1, limit)
    }
}

/// What the driver of a send does next.
#[derive(Debug)]
pub enum SendAction {
    /// Send the datagrams of `len` slots from `start` on with one call.
    SendChunk {
        /// First slot.
        start: usize,
        /// Number of slots, at least 1.
        len: usize,
    },
    /// Send the datagram of this slot alone, to learn why it was refused.
    SendOne {
        /// The slot.
        index: usize,
    },
    /// Return this.
    Finish(Result<usize, SendError>),
}

/// The end of the longest chunk that one call may take.
pub open spec fn chunk_limit(length: int, accepted: int, max_batch: int) -> int {
    if length - accepted < max_batch {
        length
    } else {
        accepted + max_batch
    }
}

/// The action with which a send goes on after `accepted` slots.
///
/// The longest run of sendable slots, up to the batch size, goes into one call.
/// A slot that cannot be sent ends the run, and ends the send when it comes first.
pub open spec fn planned_send<B: PacketBuffer>(
    mtu: usize,
    max_batch: usize,
    batch: Seq<TxSlot<UdpTransmit<B>>>,
    accepted: int,
) -> SendAction {
    let end = sendable_end(
        mtu,
        batch,
        accepted,
        chunk_limit(batch.len() as int, accepted, max_batch as int),
    );
    if accepted >= batch.len() {
        SendAction::Finish(Ok(accepted as usize))
    } else if end == accepted {
        SendAction::Finish(
            Err(
                SendError {
                    accepted: accepted as usize,
                    kind: send_fault(mtu, batch[accepted])->0,
                },
            ),
        )
    } else {
        SendAction::SendChunk { start: accepted as usize, len: (end - accepted) as usize }
    }
}

/// `after` is `before` with exactly the slots in `from..to` consumed.
pub open spec fn range_taken<T>(
    before: Seq<TxSlot<T>>,
    after: Seq<TxSlot<T>>,
    from: int,
    to: int,
) -> bool {
    &&& 0 <= from <= to <= before.len()
    &&& after.len() == before.len()
    &&& forall|i: int| from <= i < to ==> (#[trigger] after[i]) is Taken
    &&& forall|i: int|
        0 <= i < after.len() && !(from <= i < to) ==> (#[trigger] after[i]) == before[i]
}

/// The send ends because the call after `accepted` slots failed with `io`.
pub open spec fn failed_send(accepted: int, io: IoError, action: SendAction) -> bool {
    if transient_kind(io.kind) {
        action == SendAction::Finish(Ok(accepted as usize))
    } else {
        &&& action matches SendAction::Finish(Err(error))
        &&& error.accepted == accepted
        &&& reports_io_error(io, error.kind)
    }
}

/// Consuming the slots behind an accepted prefix makes a longer accepted prefix,
/// so a send that ends after any number of calls has consumed exactly the slots
/// that it reports.
pub proof fn law_send_consumes_a_prefix<T>(
    original: Seq<TxSlot<T>>,
    before: Seq<TxSlot<T>>,
    after: Seq<TxSlot<T>>,
    from: int,
    to: int,
)
    requires
        prefix_taken(original, before, from),
        range_taken(before, after, from, to),
    ensures
        prefix_taken(original, after, to),
{
    assert forall|i: int| 0 <= i < to implies (#[trigger] after[i]) is Taken by {
        if i < from {
            assert(after[i] == before[i]);
        }
    }
    assert forall|i: int| to <= i < after.len() implies (#[trigger] after[i]) == original[i] by {
        assert(after[i] == before[i]);
    }
}

fn take_range<T>(batch: &mut [TxSlot<T>], from: usize, to: usize)
    requires
        from <= to <= old(batch)@.len(),
    ensures
        range_taken(old(batch)@, final(batch)@, from as int, to as int),
{
    let mut at: usize = from;
    while at < to
        invariant
            from <= at <= to <= batch@.len(),
            range_taken(old(batch)@, batch@, from as int, at as int),
        decreases to - at,
    {
        batch[at] = TxSlot::Taken;
        at = at + 1;
    }
}

/// One received datagram as the system reports it.
#[derive(Clone, Copy, Debug, Eq, PartialEq, Structural)]
pub struct Datagram {
    /// Payload length.
    pub len: usize,
    /// The payload did not fit and was cut off.
    pub truncated: bool,
    /// Remote source address.
    pub source: SocketAddr,
    /// Local destination IP when available.
    pub destination: Option<IpAddr>,
}

/// What the driver of a receive does next.
#[derive(Debug)]
pub enum RecvStep {
    /// Make the call again.
    Retry,
    /// Return this.
    Finish(Result<usize, Error>),
}

/// The receive metadata of a datagram.
pub open spec fn datagram_meta(datagram: Datagram) -> UdpRecvMeta {
    UdpRecvMeta {
        source: datagram.source,
        destination: datagram.destination,
        destination_port: None,
        ecn: None,
        len: datagram.len,
        gro_stride: None,
    }
}

/// Index of the first datagram from `at` on that claims more bytes than fit
/// without being marked as cut off, or the number of datagrams.
pub open spec fn first_overlong(datagrams: Seq<Datagram>, capacity: int, at: int) -> int
    decreases datagrams.len() - at,
{
    if at >= datagrams.len() || (!datagrams[at].truncated && datagrams[at].len > capacity) {
        at
    } else {
        first_overlong(datagrams, capacity, at + 1)
    }
}

/// The indices below `end` of the datagrams that were not cut off.
pub open spec fn whole_datagrams(datagrams: Seq<Datagram>, end: int) -> Seq<int>
    decreases end,
{
    if end <= 0 {
        Seq::empty()
    } else if datagrams[end - 1].truncated {
        whole_datagrams(datagrams, end - 1)
    } else {
        whole_datagrams(datagrams, end - 1).push(end - 1)
    }
}

proof fn lemma_whole_datagrams(datagrams: Seq<Datagram>, end: int)
    requires
        0 <= end <= datagrams.len(),
    ensures
        whole_datagrams(datagrams, end).len() <= end,
        forall|k: int|
            0 <= k < whole_datagrams(datagrams, end).len() ==> 0
                <= #[trigger] whole_datagrams(datagrams, end)[k] < end,
    decreases end,
{
    if end > 0 {
        lemma_whole_datagrams(datagrams, end - 1);
    }
}

/// The prepared buffers that are left when the datagrams below `end` were handled: a
/// buffer stays where nothing was received or the datagram was cut off.
pub open spec fn slots_left(
    prepared: Seq<Option<OsPacketBufMut>>,
    datagrams: Seq<Datagram>,
    end: int,
) -> Seq<Option<OsPacketBufMut>> {
    Seq::new(
        prepared.len(),
        |i: int|
            if i < end && !datagrams[i].truncated {
                None
            } else {
                prepared[i]
            },
    )
}

/// The number of prepared buffers.
pub open spec fn prepared_count(prepared: Seq<Option<OsPacketBufMut>>) -> nat
    decreases prepared.len(),
{
    if prepared.len() == 0 {
        0
    } else {
        prepared_count(prepared.drop_last()) + (if prepared.last() is Some {
            1nat
        } else {
            0
        })
    }
}

proof fn lemma_one_more_prepared(
    prepared: Seq<Option<OsPacketBufMut>>,
    index: int,
    buffer: OsPacketBufMut,
)
    requires
        0 <= index < prepared.len(),
        prepared[index] is None,
    ensures
        prepared_count(prepared.update(index, Some(buffer))) == prepared_count(prepared) + 1,
    decreases prepared.len(),
{
    let updated = prepared.update(index, Some(buffer));
    if index == prepared.len() - 1 {
        assert(updated.drop_last() =~= prepared.drop_last());
    } else {
        assert(updated.drop_last() =~= prepared.drop_last().update(index, Some(buffer)));
        lemma_one_more_prepared(prepared.drop_last(), index, buffer);
    }
}

/// The filled slots decide the number of prepared buffers.
proof fn lemma_same_slots(left: Seq<Option<OsPacketBufMut>>, right: Seq<Option<OsPacketBufMut>>)
    requires
        left.len() == right.len(),
        forall|i: int| 0 <= i < left.len() ==> (#[trigger] left[i] is Some == right[i] is Some),
    ensures
        prepared_count(left) == prepared_count(right),
    decreases left.len(),
{
    if left.len() > 0 {
        assert(left[left.len() - 1] is Some == right[left.len() - 1] is Some);
        assert forall|i: int| 0 <= i < left.len() - 1 implies (
        #[trigger] left.drop_last()[i] is Some == right.drop_last()[i] is Some) by {
            assert(left[i] is Some == right[i] is Some);
        }
        lemma_same_slots(left.drop_last(), right.drop_last());
    }
}

proof fn lemma_none_prepared(prepared: Seq<Option<OsPacketBufMut>>)
    requires
        forall|i: int| 0 <= i < prepared.len() ==> (#[trigger] prepared[i]) is None,
    ensures
        prepared_count(prepared) == 0,
    decreases prepared.len(),
{
    if prepared.len() > 0 {
        lemma_none_prepared(prepared.drop_last());
    }
}

/// A slot that gives its buffer away leaves one prepared buffer fewer.
proof fn lemma_one_prepared_less(prepared: Seq<Option<OsPacketBufMut>>, index: int)
    requires
        0 <= index < prepared.len(),
        prepared[index] is Some,
    ensures
        prepared_count(prepared.update(index, None)) + 1 == prepared_count(prepared),
{
    let emptied = prepared.update(index, None);
    lemma_one_more_prepared(emptied, index, prepared[index]->0);
    assert(emptied.update(index, Some(prepared[index]->0)) =~= prepared);
}

/// What a receive returns for these datagrams.
pub open spec fn recv_result(datagrams: Seq<Datagram>, capacity: int) -> Result<usize, Error> {
    let end = first_overlong(datagrams, capacity, 0);
    let count = whole_datagrams(datagrams, end).len();
    if end < datagrams.len() || (count == 0 && datagrams.len() > 0) {
        Err(Error::Truncated)
    } else {
        Ok(count as usize)
    }
}

/// State of an OS UDP socket: its identity, limits and buffers.
pub struct OsUdpSocket {
    rx_pool: OsBufferPool,
    tx_pool: OsBufferPool,
    if_index: Option<IfIndex>,
    queue_id: QueueId,
    queue_affinity: QueueAffinity,
    mtu: usize,
    max_batch: usize,
    recv_buffers: Vec<Option<OsPacketBufMut>>,
}

impl OsUdpSocket {
    /// The pool of receive buffers.
    pub closed spec fn rx_pool_spec(&self) -> OsBufferPool {
        self.rx_pool
    }

    /// The pool of transmit buffers.
    pub closed spec fn tx_pool_spec(&self) -> OsBufferPool {
        self.tx_pool
    }

    /// The largest payload that is sent.
    pub closed spec fn mtu_spec(&self) -> usize {
        self.mtu
    }

    /// Datagrams per system call.
    pub closed spec fn max_batch_spec(&self) -> usize {
        self.max_batch
    }

    /// The interface, when known.
    pub closed spec fn if_index_spec(&self) -> Option<IfIndex> {
        self.if_index
    }

    /// The logical queue.
    pub closed spec fn queue_id_spec(&self) -> QueueId {
        self.queue_id
    }

    /// The affinity hint.
    pub closed spec fn queue_affinity_spec(&self) -> QueueAffinity {
        self.queue_affinity
    }

    /// The buffers held ready for the next receive, one place per datagram.
    pub closed spec fn prepared(&self) -> Seq<Option<OsPacketBufMut>> {
        self.recv_buffers@
    }

    /// The identity and limits of `other`.
    pub open spec fn same_config(&self, other: &OsUdpSocket) -> bool {
        &&& self.mtu_spec() == other.mtu_spec()
        &&& self.max_batch_spec() == other.max_batch_spec()
        &&& self.if_index_spec() == other.if_index_spec()
        &&& self.queue_id_spec() == other.queue_id_spec()
        &&& self.queue_affinity_spec() == other.queue_affinity_spec()
    }

    /// The pools are consistent, and every buffer held ready is an empty chunk
    /// of the receive pool.
    pub open spec fn wf(&self) -> bool {
        &&& self.rx_pool_spec().pool_wf()
        &&& self.tx_pool_spec().pool_wf()
        &&& 1 <= self.max_batch_spec() <= MAX_BATCH_HARD_CAP
        &&& self.prepared().len() == self.max_batch_spec()
        &&& prepared_count(self.prepared()) <= self.rx_pool_spec().in_flight()
        &&& forall|i: int|
            0 <= i < self.prepared().len() ==> ((#[trigger] self.prepared()[i]) matches Some(buffer)
                ==> {
                &&& buffer.wf()
                &&& buffer.is_chunk()
                &&& buffer.layout_spec() == self.rx_pool_spec().pool_layout()
            })
    }

    /// Checks `config` and creates the state of the socket that it describes.
    pub fn from_std(config: OsUdpSocketConfig) -> (r: Result<Self, OsConfigError>)
        requires
            config.wf(),
        ensures
            match config_fault(config) {
                Some(error) => r matches Err(actual) && actual == error,
                None => {
                    &&& r matches Ok(socket)
                    &&& socket.wf()
                    &&& socket.mtu_spec() == config.mtu
                    &&& socket.max_batch_spec() == config.max_batch
                    &&& socket.if_index_spec() == config.if_index
                    &&& socket.queue_id_spec() == config.queue_id
                    &&& socket.queue_affinity_spec() == config.queue_affinity
                    &&& socket.rx_pool_spec().pool_layout()@ == (LayoutFacts {
                        max_segments: 1,
                        ..config.rx_buffer_layout@
                    })
                    &&& socket.tx_pool_spec().pool_layout()@ == (LayoutFacts {
                        max_segments: 1,
                        ..config.tx_buffer_layout@
                    })
                    &&& socket.rx_pool_spec().limit() == DEFAULT_POOL_MAX_BUFFERS
                    &&& socket.tx_pool_spec().limit() == DEFAULT_POOL_MAX_BUFFERS
                    &&& socket.rx_pool_spec().in_flight() == 0
                    &&& socket.tx_pool_spec().in_flight() == 0
                    &&& forall|i: int|
                        0 <= i < socket.prepared().len() ==> (#[trigger] socket.prepared()[i])
                            is None
                },
            },
    {
        if config.max_batch == 0 || config.max_batch > MAX_BATCH_HARD_CAP {
            return Err(OsConfigError::MaxBatch(config.max_batch));
        }
        if let Err(error) = incoming_cpu(config.queue_affinity) {
            return Err(error);
        }
        let mut recv_buffers: Vec<Option<OsPacketBufMut>> = Vec::with_capacity(config.max_batch);
        while recv_buffers.len() < config.max_batch
            invariant
                recv_buffers@.len() <= config.max_batch,
                forall|i: int|
                    0 <= i < recv_buffers@.len() ==> (#[trigger] recv_buffers@[i]) is None,
            decreases config.max_batch - recv_buffers@.len(),
        {
            recv_buffers.push(None);
        }
        proof {
            lemma_none_prepared(recv_buffers@);
        }
        Ok(
            OsUdpSocket {
                rx_pool: OsBufferPool::new(config.rx_buffer_layout),
                tx_pool: OsBufferPool::new(config.tx_buffer_layout),
                if_index: config.if_index,
                queue_id: config.queue_id,
                queue_affinity: config.queue_affinity,
                mtu: config.mtu,
                max_batch: config.max_batch,
                recv_buffers,
            },
        )
    }

    /// Returns the configured operating-system interface index, when known.
    #[must_use]
    pub fn if_index(&self) -> (r: Option<IfIndex>)
        ensures
            r == self.if_index_spec(),
    {
        self.if_index
    }

    /// Returns the configured queue CPU affinity hint.
    #[must_use]
    pub fn queue_affinity(&self) -> (r: QueueAffinity)
        ensures
            r == self.queue_affinity_spec(),
    {
        self.queue_affinity
    }

    /// Returns the logical identity of the socket: its queue.
    #[must_use]
    pub fn socket_id(&self) -> (r: SocketId)
        ensures
            r.value() == self.queue_id_spec().value(),
    {
        SocketId::new(self.queue_id.get())
    }

    /// Returns the largest payload that is sent.
    #[must_use]
    pub fn mtu(&self) -> (r: usize)
        ensures
            r == self.mtu_spec(),
    {
        self.mtu
    }

    /// Returns the receive pool.
    #[must_use]
    pub fn rx_pool(&self) -> (r: &OsBufferPool)
        ensures
            *r == self.rx_pool_spec(),
    {
        &self.rx_pool
    }

    /// Returns the transmit pool.
    #[must_use]
    pub fn tx_pool(&self) -> (r: &OsBufferPool)
        ensures
            *r == self.tx_pool_spec(),
    {
        &self.tx_pool
    }

    /// Returns the receive pool mutably.
    #[must_use]
    pub fn rx_pool_mut(&mut self) -> (r: &mut OsBufferPool)
        ensures
            *r == old(self).rx_pool_spec(),
            final(self).rx_pool_spec() == *final(r),
            final(self).tx_pool_spec() == old(self).tx_pool_spec(),
            final(self).prepared() == old(self).prepared(),
            final(self).same_config(old(self)),
    {
        &mut self.rx_pool
    }

    /// Returns the transmit pool mutably.
    #[must_use]
    pub fn tx_pool_mut(&mut self) -> (r: &mut OsBufferPool)
        ensures
            *r == old(self).tx_pool_spec(),
            final(self).tx_pool_spec() == *final(r),
            final(self).rx_pool_spec() == old(self).rx_pool_spec(),
            final(self).prepared() == old(self).prepared(),
            final(self).same_config(old(self)),
    {
        &mut self.tx_pool
    }

    /// Decides how a send goes on after `accepted` slots of `batch`.
    pub fn plan_send<B: PacketBuffer>(
        &self,
        batch: &[TxSlot<UdpTransmit<B>>],
        accepted: usize,
    ) -> (r: SendAction)
        requires
            self.wf(),
            send_batch_wf(batch@),
            accepted <= batch@.len(),
        ensures
            r == planned_send(self.mtu_spec(), self.max_batch_spec(), batch@, accepted as int),
    {
        let length: usize = batch.len();
        if accepted >= length {
            return SendAction::Finish(Ok(accepted));
        }
        let limit: usize = if length - accepted < self.max_batch {
            length
        } else {
            accepted + self.max_batch
        };
        let mut at: usize = accepted;
        while at < limit
            invariant
                accepted <= at <= limit <= batch@.len(),
                length == batch@.len(),
                accepted < limit,
                accepted < length,
                limit == chunk_limit(length as int, accepted as int, self.max_batch as int),
                send_batch_wf(batch@),
                sendable_end(self.mtu, batch@, accepted as int, limit as int) == sendable_end(
                    self.mtu,
                    batch@,
                    at as int,
                    limit as int,
                ),
            ensures
                accepted < at <= limit,
                sendable_end(self.mtu, batch@, accepted as int, limit as int) == at,
            decreases limit - at,
        {
            let fault: Option<Error> = match batch[at].as_ref() {
                Some(tx) => if tx.packet.len() > self.mtu {
                    Some(Error::OversizeForMtu)
                } else if has_unsupported_tx_options(tx) {
                    Some(Error::InvalidPacket)
                } else {
                    None
                },
                None => Some(Error::InvalidBatch),
            };
            if let Some(kind) = fault {
                if at == accepted {
                    return SendAction::Finish(Err(SendError { accepted, kind }));
                }
                break;
            }
            at = at + 1;
        }
        SendAction::SendChunk { start: accepted, len: at - accepted }
    }

    /// Decides after the call for `len` slots from `start` on returned the
    /// number of datagrams it sent, or failed.
    pub fn after_send_chunk<B: PacketBuffer>(
        &self,
        batch: &mut [TxSlot<UdpTransmit<B>>],
        start: usize,
        len: usize,
        outcome: Result<usize, IoError>,
    ) -> (r: SendAction)
        requires
            self.wf(),
            send_batch_wf(old(batch)@),
            start + len <= old(batch)@.len(),
            outcome matches Ok(sent) ==> sent <= len,
        ensures
            match outcome {
                Err(io) => {
                    &&& final(batch)@ == old(batch)@
                    &&& if io.kind == IoErrorKind::Interrupted {
                        r == (SendAction::SendChunk { start, len })
                    } else {
                        failed_send(start as int, io, r)
                    }
                },
                Ok(sent) => {
                    &&& range_taken(old(batch)@, final(batch)@, start as int, start + sent)
                    &&& r == (if sent < len {
                        SendAction::SendOne { index: (start + sent) as usize }
                    } else {
                        planned_send(
                            self.mtu_spec(),
                            self.max_batch_spec(),
                            final(batch)@,
                            start + sent,
                        )
                    })
                },
            },
    {
        proof {
            assert(batch.len() == batch@.len());
        }
        match outcome {
            Err(error) => {
                if error.kind == IoErrorKind::Interrupted {
                    SendAction::SendChunk { start, len }
                } else if is_transient(&error) {
                    SendAction::Finish(Ok(start))
                } else {
                    SendAction::Finish(
                        Err(SendError { accepted: start, kind: io_error_to_core(error) }),
                    )
                }
            },
            Ok(sent) => {
                take_range(batch, start, start + sent);
                if sent < len {
                    SendAction::SendOne { index: start + sent }
                } else {
                    self.plan_send(&*batch, start + sent)
                }
            },
        }
    }

    /// Decides after the call for the slot `index` alone succeeded or failed.
    pub fn after_send_one<B: PacketBuffer>(
        &self,
        batch: &mut [TxSlot<UdpTransmit<B>>],
        index: usize,
        outcome: Result<(), IoError>,
    ) -> (r: SendAction)
        requires
            self.wf(),
            send_batch_wf(old(batch)@),
            index < old(batch)@.len(),
        ensures
            match outcome {
                Err(io) => {
                    &&& final(batch)@ == old(batch)@
                    &&& if io.kind == IoErrorKind::Interrupted {
                        r == (SendAction::SendOne { index })
                    } else {
                        failed_send(index as int, io, r)
                    }
                },
                Ok(_) => {
                    &&& range_taken(old(batch)@, final(batch)@, index as int, index + 1)
                    &&& r == planned_send(
                        self.mtu_spec(),
                        self.max_batch_spec(),
                        final(batch)@,
                        index + 1,
                    )
                },
            },
    {
        proof {
            assert(batch.len() == batch@.len());
        }
        match outcome {
            Err(error) => {
                if error.kind == IoErrorKind::Interrupted {
                    SendAction::SendOne { index }
                } else if is_transient(&error) {
                    SendAction::Finish(Ok(index))
                } else {
                    SendAction::Finish(
                        Err(SendError { accepted: index, kind: io_error_to_core(error) }),
                    )
                }
            },
            Ok(_) => {
                take_range(batch, index, index + 1);
                self.plan_send(&*batch, index + 1)
            },
        }
    }

    /// Makes buffers ready to receive up to `remaining` datagrams and returns
    /// for how many there is a buffer.
    pub fn prepare_recv(&mut self, remaining: usize) -> (r: usize)
        requires
            old(self).wf(),
        ensures
            final(self).wf(),
            final(self).same_config(old(self)),
            final(self).tx_pool_spec() == old(self).tx_pool_spec(),
            final(self).rx_pool_spec().pool_layout() == old(self).rx_pool_spec().pool_layout(),
            final(self).rx_pool_spec().limit() == old(self).rx_pool_spec().limit(),
            final(self).prepared().len() == old(self).prepared().len(),
            final(self).rx_pool_spec().in_flight() + prepared_count(old(self).prepared()) == old(self).rx_pool_spec().in_flight()
                + prepared_count(final(self).prepared()),
            r <= remaining,
            r <= old(self).max_batch_spec(),
            forall|i: int| 0 <= i < r ==> (#[trigger] final(self).prepared()[i]) is Some,
            forall|i: int|
                0 <= i < old(self).prepared().len() && (old(self).prepared()[i] is Some || i >= r)
                    ==> (#[trigger] final(self).prepared()[i]) == old(self).prepared()[i],
            r < remaining && r < old(self).max_batch_spec() ==> old(self).prepared()[r as int]
                is None && final(self).rx_pool_spec().in_flight() == final(self).rx_pool_spec().limit(),
    {
        let wanted: usize = if remaining < self.max_batch {
            remaining
        } else {
            self.max_batch
        };
        let mut index: usize = 0;
        while index < wanted
            invariant
                index <= wanted <= self.max_batch,
                wanted <= remaining,
                wanted == remaining || wanted == self.max_batch,
                old(self).wf(),
                self.wf(),
                self.same_config(old(self)),
                self.tx_pool == old(self).tx_pool,
                self.rx_pool.pool_layout() == old(self).rx_pool.pool_layout(),
                self.rx_pool.limit() == old(self).rx_pool.limit(),
                self.recv_buffers@.len() == old(self).recv_buffers@.len(),
                self.rx_pool.in_flight() + prepared_count(old(self).recv_buffers@) == old(self).rx_pool.in_flight()
                    + prepared_count(self.recv_buffers@),
                forall|i: int| 0 <= i < index ==> (#[trigger] self.recv_buffers@[i]) is Some,
                forall|i: int|
                    0 <= i < old(self).recv_buffers@.len() && (old(self).recv_buffers@[i] is Some
                        || i >= index) ==> (#[trigger] self.recv_buffers@[i]) == old(self).recv_buffers@[i],
            decreases wanted - index,
        {
            if self.recv_buffers[index].is_none() {
                match self.rx_pool.allocate() {
                    None => {
                        proof {
                            crate::os_buffer::law_pool_stays_within_its_limit(self.rx_pool);
                        }
                        return index;
                    },
                    Some(buffer) => {
                        let ghost before = *self;
                        self.recv_buffers[index] = Some(buffer);
                        proof {
                            lemma_one_more_prepared(before.recv_buffers@, index as int, buffer);
                            assert forall|i: int|
                                0 <= i < self.prepared().len() implies ((
                            #[trigger] self.prepared()[i]) matches Some(buffer) ==> {
                                &&& buffer.wf()
                                &&& buffer.is_chunk()
                                &&& buffer.layout_spec() == self.rx_pool_spec().pool_layout()
                            }) by {
                                if i != index {
                                    assert(self.prepared()[i] == before.prepared()[i]);
                                }
                            }
                        }
                    },
                }
            }
            index = index + 1;
        }
        index
    }

    /// Returns the bytes that a receive may fill for the datagram `index`.
    pub fn receive_area_mut(&mut self, index: usize) -> (r: Option<&mut [u8]>)
        requires
            old(self).wf(),
            index < old(self).prepared().len(),
        ensures
            match old(self).prepared()[index as int] {
                None => {
                    &&& r is None
                    &&& final(self).wf()
                    &&& final(self).same_config(old(self))
                    &&& final(self).tx_pool_spec() == old(self).tx_pool_spec()
                    &&& final(self).rx_pool_spec() == old(self).rx_pool_spec()
                    &&& final(self).prepared() == old(self).prepared()
                },
                Some(buffer) => {
                    &&& r is Some
                    &&& r->0@ == buffer.receive_area()
                    &&& final(r->0)@.len() == r->0@.len() ==> {
                        &&& final(self).wf()
                        &&& final(self).same_config(old(self))
                        &&& final(self).tx_pool_spec() == old(self).tx_pool_spec()
                        &&& final(self).rx_pool_spec() == old(self).rx_pool_spec()
                        &&& final(self).prepared()[index as int] matches Some(filled)
                        &&& filled.receive_area() == final(r->0)@
                        &&& forall|i: int|
                            0 <= i < old(self).prepared().len() && i != index ==> (
                            #[trigger] final(self).prepared()[i]) == old(self).prepared()[i]
                    }
                },
            },
    {
        proof {
            let before = self.recv_buffers@;
            assert forall|after: Seq<Option<OsPacketBufMut>>|
                after.len() == before.len() && (forall|i: int|
                    0 <= i < after.len() ==> (#[trigger] after[i] is Some
                        == before[i] is Some)) implies #[trigger] prepared_count(after)
                == prepared_count(before) by {
                lemma_same_slots(after, before);
            }
        }
        match &mut self.recv_buffers[index] {
            None => None,
            Some(buffer) => Some(buffer.data_mut()),
        }
    }

    /// Delivers the datagrams of a receive call to `out`, or interprets its failure.
    ///
    /// Datagrams that were cut off are skipped. If nothing else came, the
    /// receive reports truncation.
    pub fn complete_recv(
        &mut self,
        out: &mut RecvBatch<UdpReceive<OsPacketBufMut, UdpRecvMeta>>,
        outcome: Result<Vec<Datagram>, IoError>,
    ) -> (r: RecvStep)
        requires
            old(self).wf(),
            old(out).wf(),
            outcome matches Ok(datagrams) ==> {
                &&& datagrams@.len() <= old(self).prepared().len()
                &&& datagrams@.len() <= old(out).spec_capacity() - old(out)@.len()
                &&& forall|i: int|
                    0 <= i < datagrams@.len() ==> (#[trigger] old(self).prepared()[i]) is Some
            },
        ensures
            final(self).wf(),
            final(self).same_config(old(self)),
            final(self).rx_pool_spec().pool_layout() == old(self).rx_pool_spec().pool_layout(),
            final(self).rx_pool_spec().limit() == old(self).rx_pool_spec().limit(),
            final(self).tx_pool_spec() == old(self).tx_pool_spec(),
            final(out).wf(),
            final(out).spec_capacity() == old(out).spec_capacity(),
            match outcome {
                Err(io) => {
                    &&& final(out)@ == old(out)@
                    &&& final(self).rx_pool_spec() == old(self).rx_pool_spec()
                    &&& final(self).prepared() == old(self).prepared()
                    &&& if io.kind == IoErrorKind::Interrupted {
                        r is Retry
                    } else if transient_kind(io.kind) {
                        r == RecvStep::Finish(Ok(0))
                    } else {
                        r matches RecvStep::Finish(Err(error)) && reports_io_error(io, error)
                    }
                },
                Ok(datagrams) => {
                    let capacity = old(self).rx_pool_spec().pool_layout()@.payload_capacity;
                    let end = first_overlong(datagrams@, capacity, 0);
                    let delivered = whole_datagrams(datagrams@, end);
                    &&& r == RecvStep::Finish(recv_result(datagrams@, capacity))
                    &&& old(out)@.is_prefix_of(final(out)@)
                    &&& final(out)@.len() == old(out)@.len() + delivered.len()
                    &&& forall|k: int|
                        0 <= k < delivered.len() ==> is_delivery(
                            datagrams@[delivered[k]],
                            old(self).prepared()[delivered[k]]->0,
                            #[trigger] final(out)@[old(out)@.len() + k],
                        )
                    &&& forall|k: int|
                        0 <= k < delivered.len() ==> {
                            let datagram = datagrams@[delivered[k]];
                            let meta = (#[trigger] final(out)@[old(out)@.len() + k]).meta;
                            &&& meta.source == datagram.source
                            &&& meta.destination == datagram.destination
                            &&& meta.len == datagram.len
                            &&& meta.destination_port is None && meta.ecn is None
                            &&& meta.gro_stride is None
                        }
                    &&& final(self).prepared() == slots_left(
                        old(self).prepared(),
                        datagrams@,
                        smaller(end + 1, datagrams@.len() as int),
                    )
                    &&& end == datagrams@.len() ==> final(self).rx_pool_spec() == old(self).rx_pool_spec()
                    &&& final(self).rx_pool_spec().in_flight() == old(self).rx_pool_spec().in_flight()
                        - (if end < datagrams@.len() {
                        1int
                    } else {
                        0
                    })
                },
            },
    {
        match outcome {
            Err(error) => {
                if error.kind == IoErrorKind::Interrupted {
                    RecvStep::Retry
                } else if is_transient(&error) {
                    RecvStep::Finish(Ok(0))
                } else {
                    RecvStep::Finish(Err(io_error_to_core(error)))
                }
            },
            Ok(datagrams) => RecvStep::Finish(self.deliver(out, &datagrams)),
        }
    }

    fn deliver(
        &mut self,
        out: &mut RecvBatch<UdpReceive<OsPacketBufMut, UdpRecvMeta>>,
        datagrams: &Vec<Datagram>,
    ) -> (r: Result<usize, Error>)
        requires
            old(self).wf(),
            old(out).wf(),
            datagrams@.len() <= old(self).prepared().len(),
            datagrams@.len() <= old(out).spec_capacity() - old(out)@.len(),
            forall|i: int|
                0 <= i < datagrams@.len() ==> (#[trigger] old(self).prepared()[i]) is Some,
        ensures
            final(self).wf(),
            final(self).same_config(old(self)),
            final(self).rx_pool_spec().pool_layout() == old(self).rx_pool_spec().pool_layout(),
            final(self).rx_pool_spec().limit() == old(self).rx_pool_spec().limit(),
            final(self).tx_pool_spec() == old(self).tx_pool_spec(),
            final(out).wf(),
            final(out).spec_capacity() == old(out).spec_capacity(),
            ({
                let capacity = old(self).rx_pool_spec().pool_layout()@.payload_capacity;
                let end = first_overlong(datagrams@, capacity, 0);
                let delivered = whole_datagrams(datagrams@, end);
                &&& r == recv_result(datagrams@, capacity)
                &&& old(out)@.is_prefix_of(final(out)@)
                &&& final(out)@.len() == old(out)@.len() + delivered.len()
                &&& forall|k: int|
                    0 <= k < delivered.len() ==> is_delivery(
                        datagrams@[delivered[k]],
                        old(self).prepared()[delivered[k]]->0,
                        #[trigger] final(out)@[old(out)@.len() + k],
                    )
                &&& final(self).prepared() == slots_left(
                    old(self).prepared(),
                    datagrams@,
                    smaller(end + 1, datagrams@.len() as int),
                )
                &&& end == datagrams@.len() ==> final(self).rx_pool_spec() == old(self).rx_pool_spec()
                &&& final(self).rx_pool_spec().in_flight() == old(self).rx_pool_spec().in_flight()
                    - (if end < datagrams@.len() {
                    1int
                } else {
                    0
                })
            }),
    {
        let capacity: usize = self.rx_pool.layout().payload_capacity();
        let ghost ds = datagrams@;
        let ghost held = out@;
        let mut delivered: usize = 0;
        let mut index: usize = 0;
        while index < datagrams.len()
            invariant
                index <= datagrams@.len(),
                ds == datagrams@,
                held == old(out)@,
                old(self).wf(),
                self.wf(),
                self.same_config(old(self)),
                self.rx_pool == old(self).rx_pool,
                self.tx_pool == old(self).tx_pool,
                capacity == old(self).rx_pool.pool_layout()@.payload_capacity,
                ds.len() <= old(self).prepared().len(),
                ds.len() <= old(out).spec_capacity() - held.len(),
                out.wf(),
                out.spec_capacity() == old(out).spec_capacity(),
                forall|i: int|
                    0 <= i < ds.len() ==> (#[trigger] old(self).prepared()[i]) is Some,
                self.prepared() == slots_left(old(self).prepared(), ds, index as int),
                first_overlong(ds, capacity as int, 0) == first_overlong(
                    ds,
                    capacity as int,
                    index as int,
                ),
                delivered == whole_datagrams(ds, index as int).len(),
                delivered <= index,
                held.is_prefix_of(out@),
                out@.len() == held.len() + delivered,
                forall|k: int|
                    0 <= k < delivered ==> is_delivery(
                        ds[whole_datagrams(ds, index as int)[k]],
                        old(self).prepared()[whole_datagrams(ds, index as int)[k]]->0,
                        #[trigger] out@[held.len() + k],
                    ),
            decreases datagrams@.len() - index,
        {
            let datagram = datagrams[index];
            let ghost before = out@;
            let ghost state = *self;
            if !datagram.truncated {
                assert(old(self).prepared()[index as int] is Some);
                assert(self.prepared()[index as int] == old(self).prepared()[index as int]);
                proof {
                    lemma_one_prepared_less(self.prepared(), index as int);
                }
                if datagram.len > capacity {
                    proof {
                        assert(first_overlong(ds, capacity as int, index as int) == index);
                    }
                    if let Some(packet) = self.recv_buffers[index].take() {
                        self.rx_pool.recycle(packet);
                    }
                    proof {
                        assert(self.prepared() =~= state.prepared().update(index as int, None));
                        assert(self.prepared() =~= slots_left(
                            old(self).prepared(),
                            ds,
                            index as int + 1,
                        ));
                        assert forall|i: int|
                            0 <= i < self.prepared().len() implies ((
                        #[trigger] self.prepared()[i]) matches Some(buffer) ==> {
                            &&& buffer.wf()
                            &&& buffer.is_chunk()
                            &&& buffer.layout_spec() == self.rx_pool_spec().pool_layout()
                        }) by {
                            assert(self.prepared()[i] is None || self.prepared()[i]
                                == state.prepared()[i]);
                        }
                    }
                    return Err(Error::Truncated);
                }
                if let Some(packet) = self.recv_buffers[index].take() {
                    let mut packet = packet;
                    let ghost buffer = packet;
                    let _ = packet.set_received_len(datagram.len);
                    let meta = UdpRecvMeta {
                        source: datagram.source,
                        destination: datagram.destination,
                        destination_port: None,
                        ecn: None,
                        len: datagram.len,
                        gro_stride: None,
                    };
                    let item = UdpReceive::new(packet, meta);
                    let _ = out.push(item);
                    proof {
                        assert(is_delivery(datagram, buffer, item));
                        assert(out@ == before.push(item));
                    }
                }
                delivered = delivered + 1;
            }
            proof {
                assert(self.prepared() =~= slots_left(old(self).prepared(), ds, index as int + 1));
                if !datagram.truncated {
                    assert(self.prepared() =~= state.prepared().update(index as int, None));
                }
                let indices = whole_datagrams(ds, index as int);
                let longer = whole_datagrams(ds, index as int + 1);
                assert forall|k: int| 0 <= k < delivered implies is_delivery(
                    ds[longer[k]],
                    old(self).prepared()[longer[k]]->0,
                    #[trigger] out@[held.len() + k],
                ) by {
                    if k < indices.len() {
                        assert(longer[k] == indices[k]);
                        assert(out@[held.len() + k] == before[held.len() + k]);
                    }
                }
                assert forall|i: int|
                    0 <= i < self.prepared().len() implies ((#[trigger] self.prepared()[i]) matches Some(
                    buffer,
                ) ==> {
                    &&& buffer.wf()
                    &&& buffer.is_chunk()
                    &&& buffer.layout_spec() == self.rx_pool_spec().pool_layout()
                }) by {
                    assert(self.prepared()[i] is None || self.prepared()[i] == state.prepared()[i]);
                }
            }
            index = index + 1;
        }
        if delivered == 0 && datagrams.len() > 0 {
            return Err(Error::Truncated);
        }
        Ok(delivered)
    }
}

/// `item` delivers `datagram`, whose payload the call wrote into `buffer`.
pub open spec fn is_delivery(
    datagram: Datagram,
    buffer: OsPacketBufMut,
    item: UdpReceive<OsPacketBufMut, UdpRecvMeta>,
) -> bool {
    &&& item.packet.wf()
    &&& item.packet.bytes() == buffer.receive_area().take(datagram.len as int)
    &&& item.meta == datagram_meta(datagram)
}

proof fn lemma_whole_datagrams_order(datagrams: Seq<Datagram>, end: int)
    requires
        0 <= end <= datagrams.len(),
    ensures
        forall|k: int|
            0 <= k < whole_datagrams(datagrams, end).len() ==> {
                &&& 0 <= #[trigger] whole_datagrams(datagrams, end)[k] < end
                &&& !datagrams[whole_datagrams(datagrams, end)[k]].truncated
            },
        forall|j: int, k: int|
            0 <= j < k < whole_datagrams(datagrams, end).len() ==> whole_datagrams(
                datagrams,
                end,
            )[j] < whole_datagrams(datagrams, end)[k],
        forall|i: int|
            0 <= i < end && !(#[trigger] datagrams[i]).truncated ==> whole_datagrams(
                datagrams,
                end,
            ).contains(i),
    decreases end,
{
    if end > 0 {
        lemma_whole_datagrams_order(datagrams, end - 1);
        let shorter = whole_datagrams(datagrams, end - 1);
        let longer = whole_datagrams(datagrams, end);
        assert forall|i: int|
            0 <= i < end && !(#[trigger] datagrams[i]).truncated implies longer.contains(i) by {
            if i < end - 1 {
                assert(shorter.contains(i));
                let k = choose|k: int| 0 <= k < shorter.len() && shorter[k] == i;
                assert(longer[k] == i);
            } else {
                assert(longer[longer.len() - 1] == i);
            }
        }
    }
}

proof fn lemma_first_overlong(datagrams: Seq<Datagram>, capacity: int, at: int)
    requires
        0 <= at <= datagrams.len(),
    ensures
        at <= first_overlong(datagrams, capacity, at) <= datagrams.len(),
        forall|i: int|
            at <= i < first_overlong(datagrams, capacity, at) ==> (#[trigger] datagrams[i]).truncated
                || datagrams[i].len <= capacity,
        first_overlong(datagrams, capacity, at) < datagrams.len() ==> {
            let last = datagrams[first_overlong(datagrams, capacity, at)];
            !last.truncated && last.len > capacity
        },
    decreases datagrams.len() - at,
{
    if at < datagrams.len() && (datagrams[at].truncated || datagrams[at].len <= capacity) {
        lemma_first_overlong(datagrams, capacity, at + 1);
    }
}

/// What a receive delivers: for datagrams that were not cut off, in the order in which
/// they came, an item with the addresses and the length that the system reported and the
/// bytes that the call wrote for this datagram. Where every datagram fits, none that is
/// whole is left out.
pub proof fn law_delivered_items_are_the_datagrams(datagrams: Vec<Datagram>, r: RecvStep)
    ensures
        forall|
            socket: &mut OsUdpSocket,
            out: &mut RecvBatch<UdpReceive<OsPacketBufMut, UdpRecvMeta>>,
        | #[trigger]
            call_ensures(
                OsUdpSocket::complete_recv,
                (socket, out, Ok::<Vec<Datagram>, IoError>(datagrams)),
                r,
            ) ==> exists|from: Seq<int>|
                {
                    &&& #[trigger] from.len() == final(out)@.len() - out@.len()
                    &&& final(out)@.take(out@.len() as int) == out@
                    &&& forall|k: int|
                        0 <= k < from.len() ==> {
                            let item = final(out)@[out@.len() + k];
                            &&& 0 <= #[trigger] from[k] < datagrams@.len()
                            &&& !datagrams@[from[k]].truncated
                            &&& item.meta.source == datagrams@[from[k]].source
                            &&& item.meta.destination == datagrams@[from[k]].destination
                            &&& item.meta.len == datagrams@[from[k]].len
                            &&& item.meta.destination_port is None
                            &&& item.meta.ecn is None
                            &&& item.meta.gro_stride is None
                            &&& item.packet.bytes() == socket.prepared()[from[k]]->0.receive_area().take(
                                item.meta.len as int,
                            )
                        }
                    &&& forall|j: int, k: int| 0 <= j < k < from.len() ==> from[j] < from[k]
                    &&& (forall|i: int|
                        0 <= i < datagrams@.len() ==> (#[trigger] datagrams@[i]).truncated
                            || datagrams@[i].len
                            <= socket.rx_pool_spec().pool_layout()@.payload_capacity) ==> {
                        &&& forall|i: int|
                            0 <= i < datagrams@.len() && !(#[trigger] datagrams@[i]).truncated
                                ==> from.contains(i)
                        &&& from.len() > 0 || datagrams@.len() == 0 ==> (r matches RecvStep::Finish(
                            Ok(count),
                        ) && count == from.len())
                        &&& from.len() == 0 && datagrams@.len() > 0 ==> r == RecvStep::Finish(
                            Err::<usize, Error>(Error::Truncated),
                        )
                    }
                },
{
    let ds = datagrams@;
    assert forall|
        socket: &mut OsUdpSocket,
        out: &mut RecvBatch<UdpReceive<OsPacketBufMut, UdpRecvMeta>>,
    | #[trigger]
        call_ensures(
            OsUdpSocket::complete_recv,
            (socket, out, Ok::<Vec<Datagram>, IoError>(datagrams)),
            r,
        ) implies exists|from: Seq<int>|
        {
            &&& #[trigger] from.len() == final(out)@.len() - out@.len()
            &&& final(out)@.take(out@.len() as int) == out@
            &&& forall|k: int|
                0 <= k < from.len() ==> {
                    let item = final(out)@[out@.len() + k];
                    &&& 0 <= #[trigger] from[k] < datagrams@.len()
                    &&& !datagrams@[from[k]].truncated
                    &&& item.meta.source == datagrams@[from[k]].source
                    &&& item.meta.destination == datagrams@[from[k]].destination
                    &&& item.meta.len == datagrams@[from[k]].len
                    &&& item.meta.destination_port is None
                    &&& item.meta.ecn is None
                    &&& item.meta.gro_stride is None
                    &&& item.packet.bytes() == socket.prepared()[from[k]]->0.receive_area().take(
                        item.meta.len as int,
                    )
                }
            &&& forall|j: int, k: int| 0 <= j < k < from.len() ==> from[j] < from[k]
            &&& (forall|i: int|
                0 <= i < datagrams@.len() ==> (#[trigger] datagrams@[i]).truncated
                    || datagrams@[i].len <= socket.rx_pool_spec().pool_layout()@.payload_capacity)
                ==> {
                &&& forall|i: int|
                    0 <= i < datagrams@.len() && !(#[trigger] datagrams@[i]).truncated
                        ==> from.contains(i)
                &&& from.len() > 0 || datagrams@.len() == 0 ==> (r matches RecvStep::Finish(
                    Ok(count),
                ) && count == from.len())
                &&& from.len() == 0 && datagrams@.len() > 0 ==> r == RecvStep::Finish(
                    Err::<usize, Error>(Error::Truncated),
                )
            }
        } by {
        let capacity = socket.rx_pool_spec().pool_layout()@.payload_capacity;
        lemma_first_overlong(ds, capacity, 0);
        let end = first_overlong(ds, capacity, 0);
        lemma_whole_datagrams_order(ds, end);
        lemma_whole_datagrams(ds, end);
        let from = whole_datagrams(ds, end);
        assert(from.len() == final(out)@.len() - out@.len());
        assert(final(out)@.take(out@.len() as int) =~= out@);
        assert forall|k: int| 0 <= k < from.len() implies is_delivery(
            ds[#[trigger] from[k]],
            socket.prepared()[from[k]]->0,
            final(out)@[out@.len() + k],
        ) by {
            assert(is_delivery(
                ds[from[k]],
                socket.prepared()[from[k]]->0,
                final(out)@[out@.len() + k],
            ));
        }
    }
}

/// A receive call that was interrupted is made again, one that found nothing ends the
/// receive with nothing, and any other failure ends it with an error. No packet comes and
/// no prepared buffer goes.
pub proof fn law_failed_receives_deliver_nothing(io: IoError, r: RecvStep)
    ensures
        forall|
            socket: &mut OsUdpSocket,
            out: &mut RecvBatch<UdpReceive<OsPacketBufMut, UdpRecvMeta>>,
        | #[trigger]
            call_ensures(
                OsUdpSocket::complete_recv,
                (socket, out, Err::<Vec<Datagram>, IoError>(io)),
                r,
            ) ==> {
                &&& final(out)@ == out@
                &&& final(socket).prepared() == socket.prepared()
                &&& r is Retry <==> io.kind == IoErrorKind::Interrupted
                &&& r == RecvStep::Finish(Ok::<usize, Error>(0)) <==> io.kind
                    == IoErrorKind::WouldBlock || io.kind == IoErrorKind::TimedOut
            },
{
}

proof fn lemma_sendable_end<B: PacketBuffer>(
    mtu: usize,
    batch: Seq<TxSlot<UdpTransmit<B>>>,
    at: int,
    limit: int,
)
    requires
        0 <= at <= limit <= batch.len(),
    ensures
        at <= sendable_end(mtu, batch, at, limit) <= limit,
        forall|i: int|
            at <= i < sendable_end(mtu, batch, at, limit) ==> send_fault(mtu, #[trigger] batch[i])
                is None,
        sendable_end(mtu, batch, at, limit) < limit ==> send_fault(
            mtu,
            batch[sendable_end(mtu, batch, at, limit)],
        ) is Some,
    decreases limit - at,
{
    if at < limit && send_fault(mtu, batch[at]) is None {
        lemma_sendable_end(mtu, batch, at + 1, limit);
    }
}

/// How a send goes on: a chunk starts behind the accepted slots, holds only datagrams
/// within the MTU that ask for no address, ECN or segmentation, and is as long as the
/// batch, the limit of a call and the slots allow. A send ends well only when all slots
/// are accepted, and fails only at a slot that cannot be sent, for the reason given.
pub proof fn law_chunks_are_the_longest_sendable_runs<B: PacketBuffer>(
    socket: &OsUdpSocket,
    batch: &[TxSlot<UdpTransmit<B>>],
    accepted: usize,
    r: SendAction,
)
    requires
        call_ensures(OsUdpSocket::plan_send::<B>, (socket, batch, accepted), r),
        socket.wf(),
        accepted <= batch@.len(),
        batch@.len() <= usize::MAX,
    ensures
        r is Finish && r->Finish_0 is Ok <==> accepted == batch@.len(),
        match r {
            SendAction::SendChunk { start, len } => {
                &&& start == accepted
                &&& 0 < len <= socket.max_batch_spec()
                &&& start + len <= batch@.len()
                &&& forall|i: int|
                    start <= i < start + len ==> {
                        &&& (#[trigger] batch@[i]) matches TxSlot::Ready(tx)
                        &&& tx.packet.bytes().len() <= socket.mtu_spec()
                        &&& tx.source_ip is None && tx.ecn is None && tx.gso_segment_size is None
                    }
                &&& len < socket.max_batch_spec() && start + len < batch@.len() ==> (batch@[start
                    + len] matches TxSlot::Ready(next) ==> {
                    ||| next.packet.bytes().len() > socket.mtu_spec()
                    ||| next.source_ip is Some
                    ||| next.ecn is Some
                    ||| next.gso_segment_size is Some
                })
            },
            SendAction::SendOne { .. } => false,
            SendAction::Finish(Ok(count)) => count == batch@.len(),
            SendAction::Finish(Err(error)) => {
                &&& error.accepted == accepted
                &&& error.kind == (match batch@[accepted as int] {
                    TxSlot::Taken => Error::InvalidBatch,
                    TxSlot::Ready(tx) => if tx.packet.bytes().len() > socket.mtu_spec() {
                        Error::OversizeForMtu
                    } else {
                        Error::InvalidPacket
                    },
                })
                &&& batch@[accepted as int] matches TxSlot::Ready(tx) ==> tx.packet.bytes().len()
                    > socket.mtu_spec() || tx.source_ip is Some || tx.ecn is Some
                    || tx.gso_segment_size is Some
            },
        },
{
    if accepted < batch@.len() {
        lemma_sendable_end(
            socket.mtu_spec(),
            batch@,
            accepted as int,
            chunk_limit(batch@.len() as int, accepted as int, socket.max_batch_spec() as int),
        );
    }
}

/// What the system says about a send of several datagrams: those it took are consumed and
/// no others, the first that it left is sent alone, an interrupted call is made again, and
/// a full socket ends the send with what was accepted so far. Any other failure reports
/// what was accepted before it.
pub proof fn law_sends_consume_what_was_taken<B: PacketBuffer>(
    socket: &OsUdpSocket,
    start: usize,
    len: usize,
    outcome: Result<usize, IoError>,
    r: SendAction,
)
    ensures
        forall|batch: &mut [TxSlot<UdpTransmit<B>>]| #[trigger]
            call_ensures(
                OsUdpSocket::after_send_chunk::<B>,
                (socket, batch, start, len, outcome),
                r,
            ) ==> match outcome {
                Ok(sent) => {
                    &&& final(batch)@.len() == batch@.len()
                    &&& forall|i: int|
                        start <= i < start + sent ==> (#[trigger] final(batch)@[i]) is Taken
                    &&& forall|i: int|
                        0 <= i < batch@.len() && !(start <= i < start + sent) ==> (
                        #[trigger] final(batch)@[i]) == batch@[i]
                    &&& sent < len && start + sent <= usize::MAX ==> (r matches SendAction::SendOne {
                        index,
                    } && index == start + sent)
                },
                Err(io) => {
                    &&& final(batch)@ == batch@
                    &&& if io.kind == IoErrorKind::Interrupted {
                        r == (SendAction::SendChunk { start, len })
                    } else if io.kind == IoErrorKind::WouldBlock || io.kind
                        == IoErrorKind::TimedOut {
                        r == SendAction::Finish(Ok::<usize, SendError>(start))
                    } else {
                        r matches SendAction::Finish(Err(error)) && error.accepted == start
                    }
                },
            },
        forall|batch: &mut [TxSlot<UdpTransmit<B>>], alone: Result<(), IoError>| #[trigger]
            call_ensures(OsUdpSocket::after_send_one::<B>, (socket, batch, start, alone), r)
                ==> match alone {
                Ok(_) => {
                    &&& final(batch)@.len() == batch@.len()
                    &&& final(batch)@[start as int] is Taken
                    &&& forall|i: int|
                        0 <= i < batch@.len() && i != start ==> (#[trigger] final(batch)@[i])
                            == batch@[i]
                },
                Err(io) => {
                    &&& final(batch)@ == batch@
                    &&& if io.kind == IoErrorKind::Interrupted {
                        r == (SendAction::SendOne { index: start })
                    } else if io.kind == IoErrorKind::WouldBlock || io.kind
                        == IoErrorKind::TimedOut {
                        r == SendAction::Finish(Ok::<usize, SendError>(start))
                    } else {
                        r matches SendAction::Finish(Err(error)) && error.accepted == start
                    }
                },
            },
{
}

/// A socket comes out of a configuration exactly where the batch size is from 1 to 4096
/// and the CPU of the hint fits the socket option, and then it has the configured limits.
pub proof fn law_sockets_follow_their_configuration(
    config: OsUdpSocketConfig,
    r: Result<OsUdpSocket, OsConfigError>,
)
    requires
        call_ensures(OsUdpSocket::from_std, (config,), r),
    ensures
        ({
            let bad_batch = config.max_batch < 1 || config.max_batch > 4096;
            let bad_cpu = config.queue_affinity matches QueueAffinity::Core(cpu) && cpu
                > 0x7fff_ffff;
            &&& r is Ok <==> !bad_batch && !bad_cpu
            &&& bad_batch ==> r == Err::<OsUdpSocket, OsConfigError>(
                OsConfigError::MaxBatch(config.max_batch),
            )
            &&& !bad_batch && bad_cpu ==> r == Err::<OsUdpSocket, OsConfigError>(
                OsConfigError::IncomingCpu(config.queue_affinity->Core_0),
            )
            &&& r matches Ok(socket) ==> {
                &&& socket.mtu_spec() == config.mtu
                &&& socket.max_batch_spec() == config.max_batch
                &&& socket.if_index_spec() == config.if_index
                &&& socket.queue_id_spec() == config.queue_id
                &&& socket.queue_affinity_spec() == config.queue_affinity
                &&& socket.rx_pool_spec().pool_layout()@.payload_capacity
                    == config.rx_buffer_layout@.payload_capacity
                &&& socket.tx_pool_spec().pool_layout()@.payload_capacity
                    == config.tx_buffer_layout@.payload_capacity
                &&& socket.prepared().len() == config.max_batch
            }
        }),
{
}

/// A hint that names a CPU asks the system for that CPU, and any other hint for none.
pub proof fn law_incoming_cpu_is_the_hinted_one(
    affinity: QueueAffinity,
    r: Result<Option<i32>, OsConfigError>,
)
    requires
        call_ensures(incoming_cpu, (affinity,), r),
    ensures
        match affinity {
            QueueAffinity::Core(cpu) => match r {
                Ok(asked) => asked matches Some(value) && value == cpu,
                Err(error) => cpu > 0x7fff_ffff && error == OsConfigError::IncomingCpu(cpu),
            },
            _ => r == Ok::<Option<i32>, OsConfigError>(None),
        },
{
}

/// What a builder was told last about a setting is what the socket gets, and no other
/// setting changes with it.
pub proof fn law_builders_change_one_setting(
    builder: OsUdpSocketBuilder,
    mtu: usize,
    max_batch: usize,
    reuse_port: bool,
    queue_id: QueueId,
    affinity: QueueAffinity,
    layout: BufferLayout,
    r: OsUdpSocketBuilder,
)
    ensures
        call_ensures(OsUdpSocketBuilder::mtu, (builder, mtu), r) ==> r.config_spec() == (
        OsUdpSocketConfig { mtu, ..builder.config_spec() }),
        call_ensures(OsUdpSocketBuilder::max_batch, (builder, max_batch), r) ==> r.config_spec()
            == (OsUdpSocketConfig { max_batch, ..builder.config_spec() }),
        call_ensures(OsUdpSocketBuilder::queue_id, (builder, queue_id), r) ==> r.config_spec() == (
        OsUdpSocketConfig { queue_id, ..builder.config_spec() }),
        call_ensures(OsUdpSocketBuilder::queue_affinity, (builder, affinity), r)
            ==> r.config_spec() == (OsUdpSocketConfig {
            queue_affinity: affinity,
            ..builder.config_spec()
        }),
        call_ensures(OsUdpSocketBuilder::rx_buffer_layout, (builder, layout), r)
            ==> r.config_spec() == (OsUdpSocketConfig {
            rx_buffer_layout: layout,
            ..builder.config_spec()
        }),
        call_ensures(OsUdpSocketBuilder::tx_buffer_layout, (builder, layout), r)
            ==> r.config_spec() == (OsUdpSocketConfig {
            tx_buffer_layout: layout,
            ..builder.config_spec()
        }),
        call_ensures(OsUdpSocketBuilder::buffer_layout, (builder, layout), r) ==> r.config_spec()
            == (OsUdpSocketConfig {
            rx_buffer_layout: layout,
            tx_buffer_layout: layout,
            ..builder.config_spec()
        }),
        call_ensures(OsUdpSocketBuilder::reuse_port, (builder, reuse_port), r)
            ==> r.config_spec() == builder.config_spec() && r.reuse_port_spec() == reuse_port,
        call_ensures(OsUdpSocketBuilder::mtu, (builder, mtu), r) ==> r.bind_addr_spec()
            == builder.bind_addr_spec() && r.reuse_port_spec() == builder.reuse_port_spec(),
{
}

/// Buffers are made ready for as many datagrams as are wanted, up to the limit of a call,
/// unless the pool has no more to give. Those that were ready stay.
pub proof fn law_receives_are_prepared_as_far_as_buffers_go(remaining: usize, r: usize)
    ensures
        forall|socket: &mut OsUdpSocket| #[trigger]
            call_ensures(OsUdpSocket::prepare_recv, (socket, remaining), r) ==> {
                &&& r <= remaining && r <= socket.max_batch_spec()
                &&& r < remaining && r < socket.max_batch_spec()
                    ==> final(socket).rx_pool_spec().in_flight()
                    == final(socket).rx_pool_spec().limit()
                &&& forall|i: int|
                    0 <= i < r ==> (#[trigger] final(socket).prepared()[i]) is Some
                &&& forall|i: int|
                    0 <= i < socket.prepared().len() && socket.prepared()[i] is Some ==> (
                    #[trigger] final(socket).prepared()[i]) == socket.prepared()[i]
            },
{
}

/// A plain send does not choose a source address, mark packets or segment them.
pub proof fn law_plain_sends_have_no_options<B>(tx: &UdpTransmit<B>, r: bool)
    requires
        call_ensures(has_unsupported_tx_options::<B>, (tx,), r),
    ensures
        tx.source_ip is Some ==> r,
        tx.ecn is Some ==> r,
        tx.gso_segment_size is Some ==> r,
        tx.source_ip is None && tx.ecn is None && tx.gso_segment_size is None ==> !r,
{
}

/// The settings of a socket for which nothing was asked: no interface, the first queue, no
/// affinity, 2048 bytes per buffer, payloads of up to 1472 bytes and 64 datagrams per call.
pub proof fn law_socket_defaults(
    config: OsUdpSocketConfig,
    bind_addr: SocketAddr,
    builder: OsUdpSocketBuilder,
)
    requires
        call_ensures(OsUdpSocketConfig::default, (), config),
        call_ensures(OsUdpSocketBuilder::new, (bind_addr,), builder),
    ensures
        config.if_index is None,
        config.queue_id.value() == 0,
        config.queue_affinity is Any,
        config.rx_buffer_layout@.payload_capacity == 2048,
        config.tx_buffer_layout@.payload_capacity == 2048,
        config.rx_buffer_layout@.chunk_size == 2048,
        config.tx_buffer_layout@.chunk_size == 2048,
        config.mtu == 1472,
        config.max_batch == 64,
        builder.bind_addr_spec() == bind_addr,
        !builder.reuse_port_spec(),
        builder.config_spec().mtu == 1472,
        builder.config_spec().max_batch == 64,
        builder.config_spec().if_index is None,
        forall|parts: (SocketAddr, bool, OsUdpSocketConfig)| #[trigger]
            call_ensures(OsUdpSocketBuilder::into_parts, (builder,), parts) ==> parts.0 == bind_addr
                && !parts.1 && parts.2 == builder.config_spec(),
{
}

/// A builder that is told an interface keeps everything else, and none of its settings
/// changes the address or, but for the one, the sharing of the port.
pub proof fn law_builders_keep_their_address(
    builder: OsUdpSocketBuilder,
    if_index: IfIndex,
    queue_id: QueueId,
    affinity: QueueAffinity,
    layout: BufferLayout,
    max_batch: usize,
    reuse_port: bool,
    r: OsUdpSocketBuilder,
)
    ensures
        call_ensures(OsUdpSocketBuilder::if_index, (builder, if_index), r) ==> r.config_spec() == (
        OsUdpSocketConfig { if_index: Some(if_index), ..builder.config_spec() })
            && r.bind_addr_spec() == builder.bind_addr_spec() && r.reuse_port_spec()
            == builder.reuse_port_spec(),
        call_ensures(OsUdpSocketBuilder::queue_id, (builder, queue_id), r) || call_ensures(
            OsUdpSocketBuilder::queue_affinity,
            (builder, affinity),
            r,
        ) || call_ensures(OsUdpSocketBuilder::buffer_layout, (builder, layout), r) || call_ensures(
            OsUdpSocketBuilder::max_batch,
            (builder, max_batch),
            r,
        ) ==> r.bind_addr_spec() == builder.bind_addr_spec() && r.reuse_port_spec()
            == builder.reuse_port_spec(),
        call_ensures(OsUdpSocketBuilder::reuse_port, (builder, reuse_port), r)
            ==> r.bind_addr_spec() == builder.bind_addr_spec(),
{
}

/// A socket is known by its queue and tells its settings.
pub proof fn law_sockets_tell_their_settings(socket: &OsUdpSocket)
    ensures
        forall|r: SocketId| #[trigger]
            call_ensures(OsUdpSocket::socket_id, (socket,), r) ==> r.value()
                == socket.queue_id_spec().value(),
        forall|r: usize| #[trigger]
            call_ensures(OsUdpSocket::mtu, (socket,), r) ==> r == socket.mtu_spec(),
        forall|r: QueueAffinity| #[trigger]
            call_ensures(OsUdpSocket::queue_affinity, (socket,), r) ==> r
                == socket.queue_affinity_spec(),
        forall|r: Option<IfIndex>| #[trigger]
            call_ensures(OsUdpSocket::if_index, (socket,), r) ==> r == socket.if_index_spec(),
        forall|r: &OsBufferPool| #[trigger]
            call_ensures(OsUdpSocket::rx_pool, (socket,), r) ==> *r == socket.rx_pool_spec(),
        forall|r: &OsBufferPool| #[trigger]
            call_ensures(OsUdpSocket::tx_pool, (socket,), r) ==> *r == socket.tx_pool_spec(),
{
}

/// What a wrong configuration is told.
pub proof fn law_configuration_errors_say_what_is_wrong(error: &OsConfigError, r: String)
    requires
        call_ensures(OsConfigError::message, (error,), r),
    ensures
        *error matches OsConfigError::MaxBatch(max_batch) ==> r@
            == "OsUdpSocketConfig::max_batch must be in 1..=4096, got "@ + decimal_text(
            max_batch as nat,
        ),
        *error is IncomingCpu ==> r@ == "SO_INCOMING_CPU value does not fit c_int"@,
{
}

} // verus!
