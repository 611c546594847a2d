//! IP packet socket trait and packet metadata.

use vstd::prelude::*;

use crate::batch::{
    accepted_count, law_prefix_taken_composes, lemma_one_more_round, prefix_taken, rounds_end,
    rounds_follow, send_run, RecvBatch, SendAllStep, SendError, SendRound, TxSlot,
};
use crate::buffer::{PacketBuffer, PacketBufferMut};
use crate::error::Error;
use crate::num::NonZeroU16;
use crate::policy::{BusyPollDriverKind, IpFamily, Mixed, PollDriver, WaitDrivenDriverKind};
use crate::route::{NeighborId, RouteId};
use crate::sys::{QueueAffinity, SocketId};

verus! {

/// IP version carried by an IP packet.
#[derive(Clone, Copy, Debug, Eq, PartialEq, Structural)]
pub enum IpVersion {
    /// IPv4 datagram.
    V4,
    /// IPv6 datagram.
    V6,
}

/// Receive checksum/offload status.
#[derive(Clone, Copy, Debug, Eq, PartialEq, Structural)]
pub enum ChecksumStatus {
    /// The L4 checksum was verified and the packet is good.
    Verified,
    /// The checksum was verified and is wrong.
    Bad,
    /// Partial checksum information needs interpretation.
    Unverified,
    /// No checksum status was provided.
    NotChecked,
}

/// Default IP packet receive metadata.
#[derive(Clone, Copy, Debug, Eq, PartialEq, Structural)]
pub struct IpPacketRecvMeta {
    /// IP version for mixed-family sockets.
    pub version: IpVersion,
    /// Complete IP datagram length.
    pub len: usize,
    /// L4 checksum status when known.
    pub checksum: ChecksumStatus,
}

/// Optional transmit checksum offload flags.
#[derive(Clone, Copy, Debug, Default, Eq, Hash, PartialEq, Structural)]
pub struct TxOffload(u32);

impl TxOffload {
    /// The raw bits.
    pub closed spec fn view(&self) -> u32 {
        self.0
    }

    /// The flags with the given raw bits.
    pub closed spec fn of_bits(bits: u32) -> Self {
        Self(bits)
    }

    /// No transmit offloads requested.
    #[must_use]
    pub fn none() -> (r: Self)
        ensures
            r@ == 0,
    {
        Self(0)
    }

    /// Request IPv4 header checksum offload.
    #[must_use]
    pub fn cksum_ip() -> (r: Self)
        ensures
            r@ == 0x1,
    {
        Self(0x1)
    }

    /// Request L4 checksum offload.
    #[must_use]
    pub fn cksum_l4() -> (r: Self)
        ensures
            r@ == 0x2,
    {
        Self(0x2)
    }

    /// Creates flags from raw bits.
    #[must_use]
    pub fn from_bits(bits: u32) -> (r: Self)
        ensures
            r@ == bits,
    {
        Self(bits)
    }

    /// Returns the raw bit representation.
    #[must_use]
    pub fn bits(self) -> (r: u32)
        ensures
            r == self@,
    {
        self.0
    }

    /// All `flags` are present.
    pub open spec fn has_all(self, flags: Self) -> bool {
        self@ & flags@ == flags@
    }

    /// Returns `true` when all `flags` are present.
    #[must_use]
    pub fn contains(self, flags: Self) -> (r: bool)
        ensures
            r == self.has_all(flags),
    {
        (self.0 & flags.0) == flags.0
    }

    /// Returns these flags plus `flags`.
    #[must_use]
    pub fn union(self, flags: Self) -> (r: Self)
        ensures
            r@ == self@ | flags@,
    {
        Self(self.0 | flags.0)
    }
}

impl core::ops::BitOr for TxOffload {
    type Output = Self;

    fn bitor(self, rhs: Self) -> (r: Self)
        ensures
            r@ == self@ | rhs@,
    {
        self.union(rhs)
    }
}

impl vstd::std_specs::ops::BitOrSpecImpl for TxOffload {
    open spec fn obeys_bitor_spec() -> bool {
        true
    }

    open spec fn bitor_req(self, rhs: Self) -> bool {
        true
    }

    open spec fn bitor_spec(self, rhs: Self) -> Self {
        Self::of_bits(self@ | rhs@)
    }
}

/// A union of flags contains both of its parts.
pub proof fn law_offload_union(left: TxOffload, right: TxOffload, both: TxOffload)
    requires
        both@ == left@ | right@,
    ensures
        both.has_all(left),
        both.has_all(right),
{
    let l = left@;
    let r = right@;
    assert((l | r) & l == l) by (bit_vector);
    assert((l | r) & r == r) by (bit_vector);
}

/// Egress handle consumed by IP packet sends.
///
/// Implementations choose an egress type that matches their routing model.
pub trait IpPacketEgress: Sized {

}

impl IpPacketEgress for () {

}

/// Core egress handle for implementations that do not need custom variants.
#[derive(Clone, Copy, Debug, Eq, PartialEq, Structural)]
pub enum CoreEgress {
    /// Use the queue's configured default egress.
    Default,
    /// Use a route handle.
    Route(RouteId),
    /// Use a neighbor handle.
    Neighbor(NeighborId),
}

impl Default for CoreEgress {
    fn default() -> (r: Self)
        ensures
            r == CoreEgress::Default,
    {
        CoreEgress::Default
    }
}

impl IpPacketEgress for CoreEgress {

}

/// One complete IP datagram received by an IP packet socket.
#[derive(Clone, Debug, Eq, PartialEq)]
pub struct IpPacketReceive<B, M = IpPacketRecvMeta> {
    /// Complete IP datagram bytes.
    pub packet: B,
    /// Receive metadata.
    pub meta: M,
}

impl<B, M> IpPacketReceive<B, M> {
    /// Creates an IP packet receive item from packet bytes and metadata.
    #[must_use]
    pub fn new(packet: B, meta: M) -> (r: Self)
        ensures
            r.packet == packet,
            r.meta == meta,
    {
        IpPacketReceive { packet, meta }
    }
}

/// One complete IP datagram submitted for transmit.
pub struct IpPacketTransmit<B, E, F: IpFamily = Mixed> {
    /// Complete IPv4 or IPv6 datagram bytes.
    pub packet: B,
    /// Resolved egress handle.
    pub egress: E,
    /// Optional parsed source-address hint.
    pub source: Option<F::Addr>,
    /// Optional parsed destination-address hint.
    pub destination: Option<F::Addr>,
    /// Optional TTL/hop-limit override or preservation hint.
    pub hop_limit: Option<u8>,
    /// Per-packet checksum offload requests.
    pub offload: TxOffload,
    /// Hardware segmentation with this segment size, or none.
    pub tso_segment_size: Option<NonZeroU16>,
}

impl<B, E, F: IpFamily> IpPacketTransmit<B, E, F> {
    /// Creates an IP packet transmit item from packet bytes and an egress handle.
    #[must_use]
    pub fn new(packet: B, egress: E) -> (r: Self)
        ensures
            r.packet == packet,
            r.egress == egress,
            r.source is None,
            r.destination is None,
            r.hop_limit is None,
            r.offload@ == 0,
            r.tso_segment_size is None,
    {
        IpPacketTransmit {
            packet,
            egress,
            source: None,
            destination: None,
            hop_limit: None,
            offload: TxOffload::none(),
            tso_segment_size: None,
        }
    }
}

/// Immutable transmit buffer type of an IP packet socket.
pub type IpPacketTxBuffer<S> = <<S as IpPacketSocket>::TxBufferMut as PacketBufferMut>::Frozen;

/// Mutable transmit buffer type allocated by an IP packet socket.
pub type IpPacketTxBufferMut<S> = <S as IpPacketSocket>::TxBufferMut;

/// Mutable receive buffer type delivered by an IP packet socket.
pub type IpPacketRxBuffer<S> = <S as IpPacketSocket>::RxBuffer;

/// Transmit item type of an IP packet socket.
pub type IpPacketTxItem<S> = IpPacketTransmit<
    IpPacketTxBuffer<S>,
    <S as IpPacketSocket>::Egress,
    <S as IpPacketSocket>::Family,
>;

/// Receive item type of an IP packet socket.
pub type IpPacketRxItem<S> = IpPacketReceive<IpPacketRxBuffer<S>, <S as IpPacketSocket>::RecvMeta>;

/// IP-packet queue.
pub trait IpPacketSocket: Sized where
    <Self::RxBuffer as PacketBufferMut>::Frozen: Send,
    <Self::TxBufferMut as PacketBufferMut>::Frozen: Send,
 {
    /// Mutable buffer type delivered by the socket receive path.
    type RxBuffer: PacketBufferMut + Send;

    /// Mutable buffer type allocated by the socket transmit path.
    type TxBufferMut: PacketBufferMut + Send;

    /// Compile-time address-family policy.
    type Family: IpFamily;

    /// Egress handle consumed by IP packet sends.
    type Egress: IpPacketEgress;

    /// Polling driver selected by this socket implementation.
    type Driver: PollDriver;

    /// Receive metadata type delivered by this socket.
    type RecvMeta;

    /// A send on `batch` may take the socket from `before` to `after` and return
    /// `result`.
    closed spec fn may_send(
        before: Self,
        after: Self,
        batch: Seq<TxSlot<IpPacketTxItem<Self>>>,
        result: Result<usize, SendError>,
    ) -> bool {
        true
    }

    /// A receive may take the socket from `before` to `after`, deliver `received`
    /// and return `result`.
    closed spec fn may_recv(
        before: Self,
        after: Self,
        received: Seq<IpPacketRxItem<Self>>,
        result: Result<usize, Error>,
    ) -> bool {
        true
    }

    /// An allocation of up to `max` buffers may take the socket from `before` to
    /// `after`, deliver `fresh` and return `result`.
    closed spec fn may_allocate(
        before: Self,
        after: Self,
        max: usize,
        fresh: Seq<IpPacketTxBufferMut<Self>>,
        result: Result<usize, Error>,
    ) -> bool {
        true
    }

    /// Reclaiming completions may take the socket from `before` to `after` and
    /// return `result`.
    closed spec fn may_reclaim(before: Self, after: Self, result: Result<usize, Error>) -> bool {
        true
    }

    /// Returns the logical identity of this socket.
    fn socket_id(&self) -> (r: SocketId);

    /// Returns the IP-layer MTU for complete datagrams.
    fn mtu(&self) -> (r: usize);

    /// Returns the CPU(s) a worker owning this socket should pin to.
    fn worker_affinity(&self) -> (r: QueueAffinity)
        default_ensures
            r == QueueAffinity::Any,
    {
        QueueAffinity::Any
    }

    /// Returns the polling driver.
    fn driver(&self) -> (r: &Self::Driver);

    /// Returns the polling driver mutably.
    fn driver_mut(&mut self) -> (r: &mut Self::Driver);

    /// Allocates up to `max` socket-owned transmit buffers into `out`.
    fn allocate_tx_batch(
        &mut self,
        out: &mut Vec<IpPacketTxBufferMut<Self>>,
        max: usize,
    ) -> (r: Result<usize, Error>)
        ensures
            old(out)@.is_prefix_of(final(out)@),
            final(out)@.len() <= old(out)@.len() + max,
            r matches Ok(count) ==> final(out)@.len() == old(out)@.len() + count,
            forall|i: int|
                old(out)@.len() <= i < final(out)@.len() ==> (#[trigger] final(out)@[i]).wf()
                    && final(out)@[i].bytes().len() == 0,
            Self::may_allocate(
                *old(self),
                *final(self),
                max,
                final(out)@.skip(old(out)@.len() as int),
                r,
            ),
    ;

    /// Sends a batch of complete IP datagrams, consuming accepted slots in order.
    fn send(&mut self, batch: &mut [TxSlot<IpPacketTxItem<Self>>]) -> (r: Result<usize, SendError>)
        ensures
            prefix_taken(old(batch)@, final(batch)@, accepted_count(r)),
            Self::may_send(*old(self), *final(self), old(batch)@, r),
    ;

    /// Sends `batch` to completion, reclaiming transmit completions whenever a
    /// send accepts nothing, for at most `max_rounds` sends. Success means that every
    /// slot was accepted. If the rounds are used up before that, the call fails with
    /// [`Error::WouldBlock`] and says how many slots were accepted.
    fn send_all(
        &mut self,
        batch: &mut [TxSlot<IpPacketTxItem<Self>>],
        max_rounds: usize,
    ) -> (r: Result<usize, SendError>)
        ensures
            prefix_taken(old(batch)@, final(batch)@, accepted_count(r)),
            r matches Ok(total) ==> total == old(batch)@.len(),
            exists|rounds: Seq<SendRound<Self>>|
                {
                    &&& #[trigger] send_run(
                        *old(self),
                        *final(self),
                        old(batch)@.len(),
                        max_rounds,
                        rounds,
                        r,
                    )
                    &&& forall|i: int|
                        0 <= i < rounds.len() ==> {
                            &&& Self::may_send(
                                (#[trigger] rounds[i]).before,
                                rounds[i].sent,
                                old(batch)@.skip(rounds[i].from as int),
                                rounds[i].result,
                            )
                            &&& rounds[i].reclaimed matches Some(reclaimed) ==> Self::may_reclaim(
                                rounds[i].sent,
                                rounds[i].after,
                                reclaimed,
                            )
                        }
                },
    {
        let length: usize = batch.len();
        let mut total: usize = 0;
        let mut left: usize = max_rounds;
        let ghost mut rounds: Seq<SendRound<Self>> = Seq::empty();
        while total < length && left > 0
            invariant
                total <= length,
                length == batch@.len(),
                prefix_taken(old(batch)@, batch@, total as int),
                left <= max_rounds,
                rounds.len() == max_rounds - left,
                rounds_follow(*old(self), rounds),
                rounds_end(*old(self), rounds) == (*self, total as int),
                rounds.len() > 0 ==> rounds.last().succeeded(),
                forall|i: int|
                    0 <= i < rounds.len() ==> {
                        &&& Self::may_send(
                            (#[trigger] rounds[i]).before,
                            rounds[i].sent,
                            old(batch)@.skip(rounds[i].from as int),
                            rounds[i].result,
                        )
                        &&& rounds[i].reclaimed matches Some(reclaimed) ==> Self::may_reclaim(
                            rounds[i].sent,
                            rounds[i].after,
                            reclaimed,
                        )
                    },
            decreases left,
        {
            left = left - 1;
            let ghost middle = batch@;
            let ghost before = *self;
            let from: usize = total;
            let (_head, tail) = batch.split_at_mut(total);
            let ghost offered = tail@;
            let outcome = self.send(tail);
            let ghost accepted = accepted_count(outcome);
            let ghost result = outcome;
            let ghost sent = *self;
            proof {
                assert(_head@ =~= middle.take(total as int));
                assert(offered =~= old(batch)@.skip(total as int));
                assert(Self::may_send(before, *self, offered, outcome));
            }
            let step = SendAllStep::after_send(total, outcome);
            proof {
                law_prefix_taken_composes(
                    old(batch)@,
                    middle,
                    batch@.skip(total as int),
                    total as int,
                    accepted,
                );
                assert(batch@ =~= middle.take(total as int) + batch@.skip(total as int));
            }
            match step {
                SendAllStep::Advance(accepted_by_now) => {
                    total = accepted_by_now;
                    proof {
                        let round = SendRound {
                            from,
                            before,
                            result,
                            sent,
                            reclaimed: None,
                            after: sent,
                        };
                        lemma_one_more_round(*old(self), rounds, round);
                        rounds = rounds.push(round);
                    }
                },
                SendAllStep::Fail(error) => {
                    proof {
                        let round = SendRound {
                            from,
                            before,
                            result,
                            sent,
                            reclaimed: None,
                            after: sent,
                        };
                        lemma_one_more_round(*old(self), rounds, round);
                        rounds = rounds.push(round);
                        assert(send_run(
                            *old(self),
                            *self,
                            old(batch)@.len(),
                            max_rounds,
                            rounds,
                            Err(error),
                        ));
                    }
                    return Err(error);
                },
                SendAllStep::Reclaim => {
                    let reclaimed = self.drain_tx_completions();
                    proof {
                        let round = SendRound {
                            from,
                            before,
                            result,
                            sent,
                            reclaimed: Some(reclaimed),
                            after: *self,
                        };
                        lemma_one_more_round(*old(self), rounds, round);
                        rounds = rounds.push(round);
                    }
                    if let SendAllStep::Fail(error) = SendAllStep::after_reclaim(
                        total,
                        reclaimed,
                    ) {
                        assert(send_run(
                            *old(self),
                            *self,
                            old(batch)@.len(),
                            max_rounds,
                            rounds,
                            Err(error),
                        ));
                        return Err(error);
                    }
                },
            }
        }
        if total < length {
            let error = SendError { accepted: total, kind: Error::WouldBlock };
            assert(send_run(
                *old(self),
                *self,
                old(batch)@.len(),
                max_rounds,
                rounds,
                Err(error),
            ));
            return Err(error);
        }
        assert(send_run(
            *old(self),
            *self,
            old(batch)@.len(),
            max_rounds,
            rounds,
            Ok(total),
        ));
        Ok(total)
    }

    /// Receives a batch of complete IP datagrams into `out`, behind what it already holds.
    fn recv(&mut self, out: &mut RecvBatch<IpPacketRxItem<Self>>) -> (r: Result<usize, Error>)
        requires
            old(out).wf(),
        ensures
            final(out).wf(),
            final(out).spec_capacity() == old(out).spec_capacity(),
            old(out)@.is_prefix_of(final(out)@),
            r matches Ok(count) ==> final(out)@.len() == old(out)@.len() + count,
            forall|i: int|
                old(out)@.len() <= i < final(out)@.len() ==> (
                #[trigger] final(out)@[i]).packet.wf(),
            Self::may_recv(
                *old(self),
                *final(self),
                final(out)@.skip(old(out)@.len() as int),
                r,
            ),
    ;

    /// Drains transmit completions and reclaims socket-owned buffers.
    fn drain_tx_completions(&mut self) -> (r: Result<usize, Error>)
        ensures
            Self::may_reclaim(*old(self), *final(self), r),
    ;

    /// Notifies the transmit path when an explicit flush is required.
    fn notify_tx(&mut self) -> (r: Result<(), Error>)
        default_ensures
            r == Ok::<(), Error>(()),
            *final(self) == *old(self),
    {
        Ok(())
    }
}

/// IP packet socket whose driver is polled continuously.
pub trait BusyPollIpPacketSocket: IpPacketSocket {

}

impl<S> BusyPollIpPacketSocket for S where S: IpPacketSocket, S::Driver: BusyPollDriverKind {

}

/// IP packet socket whose driver can wait on an external event source.
pub trait ReadinessIpPacketSocket: IpPacketSocket {

}

impl<S> ReadinessIpPacketSocket for S where S: IpPacketSocket, S::Driver: WaitDrivenDriverKind {

}

/// The offload requests are single bits, one apart from the other, and a request for
/// nothing is contained in every other.
pub proof fn law_offload_flags_are_bits(
    none: TxOffload,
    ip: TxOffload,
    l4: TxOffload,
    both: TxOffload,
)
    requires
        call_ensures(TxOffload::none, (), none),
        call_ensures(TxOffload::cksum_ip, (), ip),
        call_ensures(TxOffload::cksum_l4, (), l4),
        call_ensures(TxOffload::union, (ip, l4), both),
    ensures
        none@ == 0,
        ip@ == 1,
        l4@ == 2,
        both@ == 3,
        forall|r: bool| #[trigger] call_ensures(TxOffload::contains, (both, ip), r) ==> r,
        forall|r: bool| #[trigger] call_ensures(TxOffload::contains, (both, l4), r) ==> r,
        forall|r: bool| #[trigger] call_ensures(TxOffload::contains, (both, none), r) ==> r,
        forall|r: bool| #[trigger] call_ensures(TxOffload::contains, (ip, l4), r) ==> !r,
        forall|r: bool| #[trigger] call_ensures(TxOffload::contains, (l4, ip), r) ==> !r,
        forall|r: bool| #[trigger] call_ensures(TxOffload::contains, (ip, both), r) ==> !r,
        forall|r: bool| #[trigger] call_ensures(TxOffload::contains, (none, ip), r) ==> !r,
{
    assert(1u32 | 2u32 == 3u32 && 3u32 & 1u32 == 1u32 && 3u32 & 2u32 == 2u32 && 3u32 & 0u32 == 0u32
        && 1u32 & 2u32 == 0u32 && 2u32 & 1u32 == 0u32 && 1u32 & 3u32 == 1u32 && 0u32 & 1u32
        == 0u32) by (bit_vector);
}

/// A set of requests contains another exactly where it has every bit of it, and a union has
/// the bits of both and no others.
pub proof fn law_offload_requests_are_sets(
    left: TxOffload,
    right: TxOffload,
    both: TxOffload,
    contained: bool,
    bit: u32,
)
    requires
        call_ensures(TxOffload::union, (left, right), both),
        call_ensures(TxOffload::contains, (left, right), contained),
        bit < 32,
    ensures
        both@ & (1u32 << bit) != 0 <==> left@ & (1u32 << bit) != 0 || right@ & (1u32 << bit) != 0,
        contained ==> (right@ & (1u32 << bit) != 0 ==> left@ & (1u32 << bit) != 0),
        contained <==> left@ | right@ == left@,
{
    let (l, r, b) = (left@, right@, both@);
    assert(b & (1u32 << bit) != 0 <==> l & (1u32 << bit) != 0 || r & (1u32 << bit) != 0)
        by (bit_vector)
        requires
            b == l | r,
    ;
    assert(l & r == r ==> (r & (1u32 << bit) != 0 ==> l & (1u32 << bit) != 0)) by (bit_vector);
    assert(l & r == r <==> l | r == l) by (bit_vector);
}

/// A packet to transmit asks for nothing beyond what it was made with.
pub proof fn law_plain_transmits_ask_for_nothing<B, E, F: IpFamily>(
    packet: B,
    egress: E,
    r: IpPacketTransmit<B, E, F>,
)
    requires
        call_ensures(IpPacketTransmit::<B, E, F>::new, (packet, egress), r),
    ensures
        r.packet == packet,
        r.egress == egress,
        r.source is None && r.destination is None && r.hop_limit is None
            && r.tso_segment_size is None,
        r.offload@ == 0,
{
}

/// A send takes the first slots of a batch, as many as it says, and leaves the others as
/// they are. Sending all of them succeeds only where every slot was taken, and fails after
/// the number of slots that the error names.
pub proof fn law_sends_take_the_first_slots<S: IpPacketSocket>(
    max_rounds: usize,
    r: Result<usize, SendError>,
)
    ensures
        forall|socket: &mut S, batch: &mut [TxSlot<IpPacketTxItem<S>>]| #[trigger]
            call_ensures(S::send, (socket, batch), r) ==> {
                let taken = match r {
                    Ok(accepted) => accepted,
                    Err(error) => error.accepted,
                };
                &&& taken <= batch@.len()
                &&& final(batch)@.len() == batch@.len()
                &&& forall|i: int| 0 <= i < taken ==> (#[trigger] final(batch)@[i]) is Taken
                &&& forall|i: int|
                    taken <= i < batch@.len() ==> #[trigger] final(batch)@[i] == batch@[i]
            },
        forall|socket: &mut S, batch: &mut [TxSlot<IpPacketTxItem<S>>]|
            #![trigger call_ensures(S::send_all, (socket, batch, max_rounds), r)]
            call_ensures(S::send_all, (socket, batch, max_rounds), r) ==> {
                let taken = match r {
                    Ok(accepted) => accepted,
                    Err(error) => error.accepted,
                };
                &&& r matches Ok(total) ==> total == batch@.len()
                &&& taken <= batch@.len()
                &&& final(batch)@.len() == batch@.len()
                &&& forall|i: int| 0 <= i < taken ==> (#[trigger] final(batch)@[i]) is Taken
                &&& forall|i: int|
                    taken <= i < batch@.len() ==> #[trigger] final(batch)@[i] == batch@[i]
            },
{
}

} // verus!
