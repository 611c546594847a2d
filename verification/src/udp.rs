//! UDP socket trait, packet metadata and prepared endpoints.

use vstd::prelude::*;

use crate::batch::{
    accepted_count, law_prefix_taken_composes, lemma_one_more_round, prefix_taken, rounds_end, rounds_follow, send_run,
    RecvBatch, SendAllStep, SendError, SendRound, TxSlot,
};
use crate::buffer::{PacketBuffer, PacketBufferMut};
use crate::error::Error;
use crate::net::{IpAddr, SocketAddr};
use crate::num::NonZeroU16;
use crate::policy::PollDriver;
use crate::sys::{QueueAffinity, SocketId};

verus! {

/// Explicit Congestion Notification codepoint.
#[derive(Clone, Copy, Debug, Eq, PartialEq, Structural)]
pub enum EcnCodepoint {
    /// Not ECN-capable transport.
    NotEct,
    /// ECN-capable transport 0.
    Ect0,
    /// ECN-capable transport 1.
    Ect1,
    /// Congestion encountered.
    Ce,
}

/// Default UDP receive metadata.
#[derive(Clone, Copy, Debug, Eq, PartialEq, Structural)]
pub struct UdpRecvMeta {
    /// Remote source address.
    pub source: SocketAddr,
    /// Local destination IP when available.
    pub destination: Option<IpAddr>,
    /// Local destination port when available.
    pub destination_port: Option<u16>,
    /// ECN codepoint when available.
    pub ecn: Option<EcnCodepoint>,
    /// UDP payload length in bytes.
    pub len: usize,
    /// GRO stride when the received buffer contains coalesced UDP datagrams.
    pub gro_stride: Option<NonZeroU16>,
}

/// One UDP packet received by a socket.
#[derive(Clone, Debug, Eq, PartialEq)]
pub struct UdpReceive<B, M = UdpRecvMeta> {
    /// Packet payload buffer.
    pub packet: B,
    /// Receive metadata.
    pub meta: M,
}

impl<B, M> UdpReceive<B, M> {
    /// Creates a received UDP packet from a buffer and metadata.
    #[must_use]
    pub fn new(packet: B, meta: M) -> (r: Self)
        ensures
            r.packet == packet,
            r.meta == meta,
    {
        UdpReceive { packet, meta }
    }
}

/// One UDP packet submitted for transmit.
#[derive(Clone, Debug, Eq, PartialEq)]
pub struct UdpTransmit<B> {
    /// Packet payload buffer.
    pub packet: B,
    /// Remote destination address.
    pub destination: SocketAddr,
    /// Optional source IP selection.
    pub source_ip: Option<IpAddr>,
    /// Optional source UDP port selection.
    pub source_port: Option<u16>,
    /// Optional ECN codepoint.
    pub ecn: Option<EcnCodepoint>,
    /// Optional UDP segmentation size.
    pub gso_segment_size: Option<NonZeroU16>,
}

impl<B> UdpTransmit<B> {
    /// Creates a UDP transmit item for a destination address.
    #[must_use]
    pub fn new(packet: B, destination: SocketAddr) -> (r: Self)
        ensures
            r == (UdpTransmit {
                packet,
                destination,
                source_ip: None,
                source_port: None,
                ecn: None,
                gso_segment_size: None,
            }),
    {
        UdpTransmit {
            packet,
            destination,
            source_ip: None,
            source_port: None,
            ecn: None,
            gso_segment_size: None,
        }
    }
}

/// Request used to prepare a socket-specific UDP endpoint.
#[derive(Clone, Copy, Debug, Eq, PartialEq, Structural)]
pub struct UdpEndpointSpec {
    /// Remote destination address.
    pub destination: SocketAddr,
    /// Optional source IP selection.
    pub source_ip: Option<IpAddr>,
    /// Optional source UDP port selection.
    pub source_port: Option<u16>,
    /// Optional ECN codepoint.
    pub ecn: Option<EcnCodepoint>,
    /// Optional UDP segmentation size.
    pub gso_segment_size: Option<NonZeroU16>,
    /// Optional fixed UDP payload length.
    pub payload_len: Option<usize>,
}

impl UdpEndpointSpec {
    /// Creates a variable-length endpoint request for a destination address.
    #[must_use]
    pub fn new(destination: SocketAddr) -> (r: Self)
        ensures
            r == (UdpEndpointSpec {
                destination,
                source_ip: None,
                source_port: None,
                ecn: None,
                gso_segment_size: None,
                payload_len: None,
            }),
    {
        UdpEndpointSpec {
            destination,
            source_ip: None,
            source_port: None,
            ecn: None,
            gso_segment_size: None,
            payload_len: None,
        }
    }
}

/// One UDP payload submitted through a prepared endpoint.
#[derive(Clone, Debug, Eq, PartialEq)]
pub struct UdpEndpointTransmit<B> {
    /// Packet payload buffer.
    pub packet: B,
}

impl<B> UdpEndpointTransmit<B> {
    /// Creates an endpoint transmit item.
    #[must_use]
    pub fn new(packet: B) -> (r: Self)
        ensures
            r.packet == packet,
    {
        UdpEndpointTransmit { packet }
    }
}

/// Prepared UDP endpoint limits and offload information.
#[derive(Clone, Copy, Debug, Eq, PartialEq, Structural)]
pub struct UdpEndpointInfo {
    /// Maximum UDP payload length accepted without segmentation.
    pub mtu: usize,
    /// Fixed payload length, when the endpoint was prepared for one.
    pub payload_len: Option<usize>,
    /// UDP segmentation size, when configured for the endpoint.
    pub gso_segment_size: Option<NonZeroU16>,
}

/// Generic prepared UDP endpoint used by backends without a specialized path.
#[derive(Clone, Debug, Eq, PartialEq, Structural)]
pub struct GenericUdpEndpoint {
    spec: UdpEndpointSpec,
    info: UdpEndpointInfo,
}

impl GenericUdpEndpoint {
    /// The original endpoint request.
    pub closed spec fn request(&self) -> UdpEndpointSpec {
        self.spec
    }

    /// The endpoint limits and offload information.
    pub closed spec fn limits(&self) -> UdpEndpointInfo {
        self.info
    }

    /// Returns the original endpoint request.
    #[must_use]
    pub fn spec(&self) -> (r: &UdpEndpointSpec)
        ensures
            *r == self.request(),
    {
        &self.spec
    }

    /// Returns endpoint limits and offload information.
    #[must_use]
    pub fn info(&self) -> (r: UdpEndpointInfo)
        ensures
            r == self.limits(),
    {
        self.info
    }
}

/// Capability flags for a UDP socket.
#[derive(Clone, Copy, Debug, Eq, PartialEq, Structural)]
pub struct UdpCapabilities {
    /// Transmit path supports UDP segmentation offload.
    pub gso: bool,
    /// Receive path may deliver GRO-coalesced UDP buffers.
    pub gro: bool,
    /// Maximum GSO segment count when known.
    pub max_gso_segments: Option<NonZeroU16>,
}

impl Default for UdpCapabilities {
    fn default() -> (r: Self)
        ensures
            r == (UdpCapabilities { gso: false, gro: false, max_gso_segments: None }),
    {
        UdpCapabilities { gso: false, gro: false, max_gso_segments: None }
    }
}

/// Both addresses are of one family.
pub open spec fn is_same_ip_family(left: IpAddr, right: IpAddr) -> bool {
    left is V4 <==> right is V4
}

/// The number of pieces of at most `piece` bytes that `total` bytes make.
pub open spec fn piece_count(total: int, piece: int) -> int {
    (total + piece - 1) / piece
}

/// Whether a socket can serve an endpoint request, and with which limits.
///
/// A source address must be of the destination's family. Segmentation must be
/// supported, with segments of at most the MTU and no more of them than the
/// socket can send. Without segmentation a fixed payload must fit the MTU.
pub open spec fn endpoint_verdict(
    mtu: usize,
    capabilities: UdpCapabilities,
    spec: UdpEndpointSpec,
) -> Result<UdpEndpointInfo, Error> {
    let accepted = Ok(
        UdpEndpointInfo {
            mtu,
            payload_len: spec.payload_len,
            gso_segment_size: spec.gso_segment_size,
        },
    );
    if spec.source_ip is Some && !is_same_ip_family(
        spec.source_ip->0,
        spec.destination.spec_ip(),
    ) {
        Err(Error::InvalidPacket)
    } else {
        match spec.gso_segment_size {
            Some(segment_size) => if !capabilities.gso {
                Err(Error::InvalidPacket)
            } else if segment_size@ > mtu {
                Err(Error::OversizeForMtu)
            } else if spec.payload_len is Some && capabilities.max_gso_segments is Some
                && piece_count(spec.payload_len->0 as int, segment_size@ as int)
                > capabilities.max_gso_segments->0@ {
                Err(Error::OversizeForMtu)
            } else {
                accepted
            },
            None => if spec.payload_len is Some && spec.payload_len->0 > mtu {
                Err(Error::OversizeForMtu)
            } else {
                accepted
            },
        }
    }
}

/// Why an endpoint rejects a payload of `payload_len` bytes, if it does.
pub open spec fn packet_rejection(info: UdpEndpointInfo, payload_len: int) -> Option<Error> {
    if info.payload_len is Some && payload_len != info.payload_len->0 {
        Some(Error::InvalidPacket)
    } else if info.gso_segment_size is None && payload_len > info.mtu {
        Some(Error::OversizeForMtu)
    } else {
        None
    }
}

/// An endpoint prepared for a fixed payload length accepts payloads of that
/// length, and only those.
pub proof fn law_endpoint_accepts_its_fixed_length(
    mtu: usize,
    capabilities: UdpCapabilities,
    spec: UdpEndpointSpec,
    info: UdpEndpointInfo,
    payload_len: int,
)
    requires
        endpoint_verdict(mtu, capabilities, spec) == Ok::<UdpEndpointInfo, Error>(info),
        spec.payload_len is Some,
    ensures
        packet_rejection(info, payload_len) is None <==> payload_len == spec.payload_len->0,
{
}

/// Returns whether both addresses are of one family.
pub fn same_ip_family(left: IpAddr, right: IpAddr) -> (r: bool)
    ensures
        r == is_same_ip_family(left, right),
{
    match (left, right) {
        (IpAddr::V4(_), IpAddr::V4(_)) => true,
        (IpAddr::V6(_), IpAddr::V6(_)) => true,
        _ => false,
    }
}

/// Checks an endpoint request against a socket's MTU and capabilities.
pub fn validate_udp_endpoint_spec(
    mtu: usize,
    capabilities: UdpCapabilities,
    spec: &UdpEndpointSpec,
) -> (r: Result<UdpEndpointInfo, Error>)
    ensures
        r == endpoint_verdict(mtu, capabilities, *spec),
{
    if let Some(source) = spec.source_ip {
        if !same_ip_family(source, spec.destination.ip()) {
            return Err(Error::InvalidPacket);
        }
    }
    if let Some(segment_size) = spec.gso_segment_size {
        if !capabilities.gso {
            return Err(Error::InvalidPacket);
        }
        let segment: usize = segment_size.get() as usize;
        if segment > mtu {
            return Err(Error::OversizeForMtu);
        }
        if let Some(payload_len) = spec.payload_len {
            if let Some(max_segments) = capabilities.max_gso_segments {
                let whole: usize = payload_len / segment;
                let rest: usize = payload_len % segment;
                proof {
                    lemma_piece_count(payload_len as int, segment as int);
                }
                let limit: usize = max_segments.get() as usize;
                if whole > limit || (whole == limit && rest > 0) {
                    return Err(Error::OversizeForMtu);
                }
            }
        }
    } else if let Some(payload_len) = spec.payload_len {
        if payload_len > mtu {
            return Err(Error::OversizeForMtu);
        }
    }
    Ok(
        UdpEndpointInfo {
            mtu,
            payload_len: spec.payload_len,
            gso_segment_size: spec.gso_segment_size,
        },
    )
}

/// Pieces are counted by whole ones and a possible rest.
pub proof fn lemma_piece_count(total: int, piece: int)
    requires
        total >= 0,
        piece > 0,
    ensures
        piece_count(total, piece) == total / piece + (if total % piece > 0 {
            1int
        } else {
            0
        }),
{
    vstd::arithmetic::div_mod::lemma_fundamental_div_mod(total, piece);
    let whole = total / piece;
    let rest = total % piece;
    if rest > 0 {
        assert(piece * (whole + 1) == piece * whole + piece) by (nonlinear_arith);
        assert((whole + 1) * piece == piece * (whole + 1)) by (nonlinear_arith);
        vstd::arithmetic::div_mod::lemma_fundamental_div_mod_converse(
            total + piece - 1,
            piece,
            whole + 1,
            rest - 1,
        );
    } else {
        assert(whole * piece == piece * whole) by (nonlinear_arith);
        vstd::arithmetic::div_mod::lemma_fundamental_div_mod_converse(
            total + piece - 1,
            piece,
            whole,
            piece - 1,
        );
    }
}

/// Checks one payload length against a prepared endpoint.
pub fn validate_udp_endpoint_packet(info: UdpEndpointInfo, payload_len: usize) -> (r: Result<
    (),
    Error,
>)
    ensures
        r == (match packet_rejection(info, payload_len as int) {
            Some(error) => Err(error),
            None => Ok(()),
        }),
{
    if let Some(expected) = info.payload_len {
        if payload_len != expected {
            return Err(Error::InvalidPacket);
        }
    }
    if info.gso_segment_size.is_none() && payload_len > info.mtu {
        return Err(Error::OversizeForMtu);
    }
    Ok(())
}

/// Immutable transmit buffer type of a UDP socket.
pub type UdpTxBuffer<S> = <<S as UdpSocket>::TxBufferMut as PacketBufferMut>::Frozen;

/// Mutable transmit buffer type allocated by a UDP socket.
pub type UdpTxBufferMut<S> = <S as UdpSocket>::TxBufferMut;

/// Mutable receive buffer type delivered by a UDP socket.
pub type UdpRxBuffer<S> = <S as UdpSocket>::RxBuffer;

/// High-level UDP socket.
pub trait UdpSocket: Sized where
    <Self::RxBuffer as PacketBufferMut>::Frozen: Send,
    <Self::TxBufferMut as PacketBufferMut>::Frozen: Send,
 {
    /// Mutable buffer type delivered by the socket receive path.
    type RxBuffer: PacketBufferMut + Send;

    /// Mutable buffer type allocated by the socket transmit path.
    type TxBufferMut: PacketBufferMut + Send;

    /// Polling driver selected by this socket implementation.
    type Driver: PollDriver;

    /// Receive metadata type delivered by this socket.
    type RecvMeta;

    /// Socket-specific prepared UDP endpoint handle.
    type Endpoint;

    /// A send on `batch` may take the socket from `before` to `after` and return
    /// `result`.
    closed spec fn may_send(
        before: Self,
        after: Self,
        batch: Seq<TxSlot<UdpTransmit<UdpTxBuffer<Self>>>>,
        result: Result<usize, SendError>,
    ) -> bool {
        true
    }

    /// A send on `batch` through `endpoint` may take the socket from `before` to
    /// `after` and return `result`.
    closed spec fn may_send_to_endpoint(
        before: Self,
        after: Self,
        endpoint: Self::Endpoint,
        batch: Seq<TxSlot<UdpEndpointTransmit<UdpTxBuffer<Self>>>>,
        result: Result<usize, SendError>,
    ) -> bool {
        true
    }

    /// A receive may take the socket from `before` to `after`, deliver `received`
    /// and return `result`.
    closed spec fn may_recv(
        before: Self,
        after: Self,
        received: Seq<UdpReceive<UdpRxBuffer<Self>, Self::RecvMeta>>,
        result: Result<usize, Error>,
    ) -> bool {
        true
    }

    /// An allocation of up to `max` buffers may take the socket from `before` to
    /// `after`, deliver `fresh` and return `result`.
    closed spec fn may_allocate(
        before: Self,
        after: Self,
        max: usize,
        fresh: Seq<UdpTxBufferMut<Self>>,
        result: Result<usize, Error>,
    ) -> bool {
        true
    }

    /// Reclaiming completions may take the socket from `before` to `after` and
    /// return `result`.
    closed spec fn may_reclaim(before: Self, after: Self, result: Result<usize, Error>) -> bool {
        true
    }

    /// Returns the logical identity of this socket.
    fn socket_id(&self) -> (r: SocketId);

    /// Returns the maximum UDP payload length accepted on transmit.
    fn mtu(&self) -> (r: usize);

    /// Returns the CPU(s) a worker owning this socket should pin to.
    fn worker_affinity(&self) -> (r: QueueAffinity)
        default_ensures
            r == QueueAffinity::Any,
    {
        QueueAffinity::Any
    }

    /// Returns UDP socket capabilities.
    fn capabilities(&self) -> (r: UdpCapabilities)
        default_ensures
            r == (UdpCapabilities { gso: false, gro: false, max_gso_segments: None }),
    {
        UdpCapabilities::default()
    }

    /// Allocates up to `max` socket-owned transmit buffers into `out`.
    fn allocate_tx_batch(&mut self, out: &mut Vec<UdpTxBufferMut<Self>>, max: usize) -> (r: Result<
        usize,
        Error,
    >)
        ensures
            old(out)@.is_prefix_of(final(out)@),
            final(out)@.len() <= old(out)@.len() + max,
            r matches Ok(count) ==> final(out)@.len() == old(out)@.len() + count,
            forall|i: int|
                old(out)@.len() <= i < final(out)@.len() ==> (#[trigger] final(out)@[i]).wf()
                    && final(out)@[i].bytes().len() == 0,
            Self::may_allocate(
                *old(self),
                *final(self),
                max,
                final(out)@.skip(old(out)@.len() as int),
                r,
            ),
    ;

    /// Returns the polling driver.
    fn driver(&self) -> (r: &Self::Driver);

    /// Returns the polling driver mutably.
    fn driver_mut(&mut self) -> (r: &mut Self::Driver);

    /// Sends a batch of UDP packets, consuming accepted slots in order.
    fn send(&mut self, batch: &mut [TxSlot<UdpTransmit<UdpTxBuffer<Self>>>]) -> (r: Result<
        usize,
        SendError,
    >)
        ensures
            prefix_taken(old(batch)@, final(batch)@, accepted_count(r)),
            Self::may_send(*old(self), *final(self), old(batch)@, r),
    ;

    /// Prepares a socket-owned transmit plan for one UDP metadata shape.
    fn prepare_udp_endpoint(&mut self, spec: UdpEndpointSpec) -> (r: Result<Self::Endpoint, Error>);

    /// Returns the original endpoint request used to build this handle.
    fn udp_endpoint_spec<'a>(&self, endpoint: &'a Self::Endpoint) -> (r: &'a UdpEndpointSpec);

    /// Returns endpoint limits and offload information.
    fn udp_endpoint_info(&self, endpoint: &Self::Endpoint) -> (r: UdpEndpointInfo);

    /// Sends a batch through a prepared endpoint, consuming accepted slots in order.
    fn send_to_udp_endpoint(
        &mut self,
        endpoint: &mut Self::Endpoint,
        batch: &mut [TxSlot<UdpEndpointTransmit<UdpTxBuffer<Self>>>],
    ) -> (r: Result<usize, SendError>)
        requires
            endpoint_batch_wf::<UdpTxBuffer<Self>>(old(batch)@),
        ensures
            prefix_taken(old(batch)@, final(batch)@, accepted_count(r)),
            Self::may_send_to_endpoint(
                *old(self),
                *final(self),
                *old(endpoint),
                old(batch)@,
                r,
            ),
    ;

    /// Sends `batch` to completion, reclaiming transmit completions whenever a
    /// send accepts nothing, for at most `max_rounds` sends. Success means that every
    /// slot was accepted. If the rounds are used up before that, the call fails with
    /// [`Error::WouldBlock`] and says how many slots were accepted.
    fn send_all(
        &mut self,
        batch: &mut [TxSlot<UdpTransmit<UdpTxBuffer<Self>>>],
        max_rounds: usize,
    ) -> (r: Result<usize, SendError>)
        ensures
            prefix_taken(old(batch)@, final(batch)@, accepted_count(r)),
            r matches Ok(total) ==> total == old(batch)@.len(),
            exists|rounds: Seq<SendRound<Self>>|
                {
                    &&& #[trigger] send_run(
                        *old(self),
                        *final(self),
                        old(batch)@.len(),
                        max_rounds,
                        rounds,
                        r,
                    )
                    &&& forall|i: int|
                        0 <= i < rounds.len() ==> {
                            &&& Self::may_send(
                                (#[trigger] rounds[i]).before,
                                rounds[i].sent,
                                old(batch)@.skip(rounds[i].from as int),
                                rounds[i].result,
                            )
                            &&& rounds[i].reclaimed matches Some(reclaimed) ==> Self::may_reclaim(
                                rounds[i].sent,
                                rounds[i].after,
                                reclaimed,
                            )
                        }
                },
    {
        let length: usize = batch.len();
        let mut total: usize = 0;
        let mut left: usize = max_rounds;
        let ghost mut rounds: Seq<SendRound<Self>> = Seq::empty();
        while total < length && left > 0
            invariant
                total <= length,
                length == batch@.len(),
                prefix_taken(old(batch)@, batch@, total as int),
                left <= max_rounds,
                rounds.len() == max_rounds - left,
                rounds_follow(*old(self), rounds),
                rounds_end(*old(self), rounds) == (*self, total as int),
                rounds.len() > 0 ==> rounds.last().succeeded(),
                forall|i: int|
                    0 <= i < rounds.len() ==> {
                        &&& Self::may_send(
                            (#[trigger] rounds[i]).before,
                            rounds[i].sent,
                            old(batch)@.skip(rounds[i].from as int),
                            rounds[i].result,
                        )
                        &&& rounds[i].reclaimed matches Some(reclaimed) ==> Self::may_reclaim(
                            rounds[i].sent,
                            rounds[i].after,
                            reclaimed,
                        )
                    },
            decreases left,
        {
            left = left - 1;
            let ghost middle = batch@;
            let ghost before = *self;
            let from: usize = total;
            let (_head, tail) = batch.split_at_mut(total);
            let ghost offered = tail@;
            let outcome = self.send(tail);
            let ghost accepted = accepted_count(outcome);
            let ghost result = outcome;
            let ghost sent = *self;
            proof {
                assert(_head@ =~= middle.take(total as int));
                assert(offered =~= old(batch)@.skip(total as int));
                assert(Self::may_send(before, *self, offered, outcome));
            }
            let step = SendAllStep::after_send(total, outcome);
            proof {
                law_prefix_taken_composes(
                    old(batch)@,
                    middle,
                    batch@.skip(total as int),
                    total as int,
                    accepted,
                );
                assert(batch@ =~= middle.take(total as int) + batch@.skip(total as int));
            }
            match step {
                SendAllStep::Advance(accepted_by_now) => {
                    total = accepted_by_now;
                    proof {
                        let round = SendRound {
                            from,
                            before,
                            result,
                            sent,
                            reclaimed: None,
                            after: sent,
                        };
                        lemma_one_more_round(*old(self), rounds, round);
                        rounds = rounds.push(round);
                    }
                },
                SendAllStep::Fail(error) => {
                    proof {
                        let round = SendRound {
                            from,
                            before,
                            result,
                            sent,
                            reclaimed: None,
                            after: sent,
                        };
                        lemma_one_more_round(*old(self), rounds, round);
                        rounds = rounds.push(round);
                        assert(send_run(
                            *old(self),
                            *self,
                            old(batch)@.len(),
                            max_rounds,
                            rounds,
                            Err(error),
                        ));
                    }
                    return Err(error);
                },
                SendAllStep::Reclaim => {
                    let reclaimed = self.drain_tx_completions();
                    proof {
                        let round = SendRound {
                            from,
                            before,
                            result,
                            sent,
                            reclaimed: Some(reclaimed),
                            after: *self,
                        };
                        lemma_one_more_round(*old(self), rounds, round);
                        rounds = rounds.push(round);
                    }
                    if let SendAllStep::Fail(error) = SendAllStep::after_reclaim(
                        total,
                        reclaimed,
                    ) {
                        assert(send_run(
                            *old(self),
                            *self,
                            old(batch)@.len(),
                            max_rounds,
                            rounds,
                            Err(error),
                        ));
                        return Err(error);
                    }
                },
            }
        }
        if total < length {
            let error = SendError { accepted: total, kind: Error::WouldBlock };
            assert(send_run(
                *old(self),
                *self,
                old(batch)@.len(),
                max_rounds,
                rounds,
                Err(error),
            ));
            return Err(error);
        }
        assert(send_run(
            *old(self),
            *self,
            old(batch)@.len(),
            max_rounds,
            rounds,
            Ok(total),
        ));
        Ok(total)
    }

    /// Sends `batch` through `endpoint` to completion, reclaiming transmit
    /// completions whenever a send accepts nothing, for at most `max_rounds` sends.
    /// Success means that every slot was accepted, as for [`UdpSocket::send_all`].
    fn send_all_to_udp_endpoint(
        &mut self,
        endpoint: &mut Self::Endpoint,
        batch: &mut [TxSlot<UdpEndpointTransmit<UdpTxBuffer<Self>>>],
        max_rounds: usize,
    ) -> (r: Result<usize, SendError>)
        requires
            endpoint_batch_wf::<UdpTxBuffer<Self>>(old(batch)@),
        ensures
            prefix_taken(old(batch)@, final(batch)@, accepted_count(r)),
            r matches Ok(total) ==> total == old(batch)@.len(),
            exists|rounds: Seq<SendRound<Self>>, endpoints: Seq<Self::Endpoint>|
                {
                    &&& #[trigger] endpoints.len() == #[trigger] rounds.len()
                    &&& rounds.len() > 0 ==> endpoints[0] == *old(endpoint)
                    &&& send_run(
                        *old(self),
                        *final(self),
                        old(batch)@.len(),
                        max_rounds,
                        rounds,
                        r,
                    )
                    &&& forall|i: int|
                        0 <= i < rounds.len() ==> {
                            &&& Self::may_send_to_endpoint(
                                (#[trigger] rounds[i]).before,
                                rounds[i].sent,
                                endpoints[i],
                                    old(batch)@.skip(rounds[i].from as int),
                                    rounds[i].result,
                                )
                            &&& rounds[i].reclaimed matches Some(reclaimed) ==> Self::may_reclaim(
                                rounds[i].sent,
                                rounds[i].after,
                                reclaimed,
                            )
                        }
                },
    {
        let length: usize = batch.len();
        let mut total: usize = 0;
        let mut left: usize = max_rounds;
        let ghost mut rounds: Seq<SendRound<Self>> = Seq::empty();
        let ghost mut endpoints: Seq<Self::Endpoint> = Seq::empty();
        while total < length && left > 0
            invariant
                total <= length,
                length == batch@.len(),
                prefix_taken(old(batch)@, batch@, total as int),
                endpoint_batch_wf::<UdpTxBuffer<Self>>(old(batch)@),
                left <= max_rounds,
                rounds.len() == max_rounds - left,
                endpoints.len() == rounds.len(),
                if rounds.len() == 0 {
                    *endpoint == *old(endpoint)
                } else {
                    endpoints[0] == *old(endpoint)
                },
                rounds_follow(*old(self), rounds),
                rounds_end(*old(self), rounds) == (*self, total as int),
                rounds.len() > 0 ==> rounds.last().succeeded(),
                forall|i: int|
                    0 <= i < rounds.len() ==> {
                        &&& Self::may_send_to_endpoint(
                                (#[trigger] rounds[i]).before,
                                rounds[i].sent,
                                endpoints[i],
                                old(batch)@.skip(rounds[i].from as int),
                                rounds[i].result,
                            )
                        &&& rounds[i].reclaimed matches Some(reclaimed) ==> Self::may_reclaim(
                            rounds[i].sent,
                            rounds[i].after,
                            reclaimed,
                        )
                    },
            decreases left,
        {
            left = left - 1;
            let ghost middle = batch@;
            let ghost before = *self;
            let from: usize = total;
            let ghost through = *endpoint;
            let (_head, tail) = batch.split_at_mut(total);
            let ghost offered = tail@;
            let outcome = self.send_to_udp_endpoint(endpoint, tail);
            let ghost accepted = accepted_count(outcome);
            let ghost result = outcome;
            let ghost sent = *self;
            proof {
                assert(_head@ =~= middle.take(total as int));
                assert(offered =~= old(batch)@.skip(total as int));
                assert(Self::may_send_to_endpoint(before, *self, through, offered, outcome));
                endpoints = endpoints.push(through);
            }
            let step = SendAllStep::after_send(total, outcome);
            proof {
                law_prefix_taken_composes(
                    old(batch)@,
                    middle,
                    batch@.skip(total as int),
                    total as int,
                    accepted,
                );
                assert(batch@ =~= middle.take(total as int) + batch@.skip(total as int));
            }
            match step {
                SendAllStep::Advance(accepted_by_now) => {
                    total = accepted_by_now;
                    proof {
                        let round = SendRound {
                            from,
                            before,
                            result,
                            sent,
                            reclaimed: None,
                            after: sent,
                        };
                        lemma_one_more_round(*old(self), rounds, round);
                        rounds = rounds.push(round);
                    }
                },
                SendAllStep::Fail(error) => {
                    proof {
                        let round = SendRound {
                            from,
                            before,
                            result,
                            sent,
                            reclaimed: None,
                            after: sent,
                        };
                        lemma_one_more_round(*old(self), rounds, round);
                        rounds = rounds.push(round);
                        assert(send_run(
                            *old(self),
                            *self,
                            old(batch)@.len(),
                            max_rounds,
                            rounds,
                            Err(error),
                        ));
                    }
                    assert(endpoints.len() == rounds.len());
                    return Err(error);
                },
                SendAllStep::Reclaim => {
                    let reclaimed = self.drain_tx_completions();
                    proof {
                        let round = SendRound {
                            from,
                            before,
                            result,
                            sent,
                            reclaimed: Some(reclaimed),
                            after: *self,
                        };
                        lemma_one_more_round(*old(self), rounds, round);
                        rounds = rounds.push(round);
                    }
                    if let SendAllStep::Fail(error) = SendAllStep::after_reclaim(
                        total,
                        reclaimed,
                    ) {
                        assert(send_run(
                            *old(self),
                            *self,
                            old(batch)@.len(),
                            max_rounds,
                            rounds,
                            Err(error),
                        ));
                        assert(endpoints.len() == rounds.len());
                        return Err(error);
                    }
                },
            }
        }
        if total < length {
            let error = SendError { accepted: total, kind: Error::WouldBlock };
            assert(send_run(
                *old(self),
                *self,
                old(batch)@.len(),
                max_rounds,
                rounds,
                Err(error),
            ));
            return Err(error);
        }
        assert(send_run(
            *old(self),
            *self,
            old(batch)@.len(),
            max_rounds,
            rounds,
            Ok(total),
        ));
        Ok(total)
    }

    /// Receives a batch of UDP packets into `out`, behind what it already holds.
    fn recv(
        &mut self,
        out: &mut RecvBatch<UdpReceive<UdpRxBuffer<Self>, Self::RecvMeta>>,
    ) -> (r: Result<usize, Error>)
        requires
            old(out).wf(),
        ensures
            final(out).wf(),
            final(out).spec_capacity() == old(out).spec_capacity(),
            old(out)@.is_prefix_of(final(out)@),
            r matches Ok(count) ==> final(out)@.len() == old(out)@.len() + count,
            forall|i: int|
                old(out)@.len() <= i < final(out)@.len() ==> (
                #[trigger] final(out)@[i]).packet.wf(),
            Self::may_recv(
                *old(self),
                *final(self),
                final(out)@.skip(old(out)@.len() as int),
                r,
            ),
    ;

    /// Drains transmit completions and reclaims socket-owned buffers.
    fn drain_tx_completions(&mut self) -> (r: Result<usize, Error>)
        ensures
            Self::may_reclaim(*old(self), *final(self), r),
    ;

    /// Notifies the transmit path when an explicit flush is required.
    fn notify_tx(&mut self) -> (r: Result<(), Error>)
        default_ensures
            r == Ok::<(), Error>(()),
            *final(self) == *old(self),
    {
        Ok(())
    }
}

/// Every packet that an endpoint batch still holds is consistent.
pub open spec fn endpoint_batch_wf<B: PacketBuffer>(
    batch: Seq<TxSlot<UdpEndpointTransmit<B>>>,
) -> bool {
    forall|i: int|
        0 <= i < batch.len() ==> ((#[trigger] batch[i]) matches TxSlot::Ready(tx)
            ==> tx.packet.wf())
}

/// Why a slot cannot be sent through an endpoint, if it cannot.
pub open spec fn slot_rejection<B: PacketBuffer>(
    info: UdpEndpointInfo,
    slot: TxSlot<UdpEndpointTransmit<B>>,
) -> Option<Error> {
    match slot {
        TxSlot::Taken => Some(Error::InvalidBatch),
        TxSlot::Ready(tx) => packet_rejection(info, tx.packet.bytes().len() as int),
    }
}

/// Index of the first slot from `at` on that cannot be sent, or the batch length.
pub open spec fn first_rejected<B: PacketBuffer>(
    info: UdpEndpointInfo,
    batch: Seq<TxSlot<UdpEndpointTransmit<B>>>,
    at: int,
) -> int
    decreases batch.len() - at,
{
    if at >= batch.len() || slot_rejection(info, batch[at]) is Some {
        at
    } else {
        first_rejected(info, batch, at + 1)
    }
}

/// The transmit item of a payload sent through an endpoint.
pub open spec fn endpoint_transmit<B>(spec: UdpEndpointSpec, packet: B) -> UdpTransmit<B> {
    UdpTransmit {
        packet,
        destination: spec.destination,
        source_ip: spec.source_ip,
        source_port: spec.source_port,
        ecn: spec.ecn,
        gso_segment_size: spec.gso_segment_size,
    }
}

/// The transmit slots of the first `count` endpoint slots.
pub open spec fn endpoint_transmits<B>(
    spec: UdpEndpointSpec,
    batch: Seq<TxSlot<UdpEndpointTransmit<B>>>,
    count: int,
) -> Seq<TxSlot<UdpTransmit<B>>> {
    Seq::new(
        count as nat,
        |i: int| TxSlot::Ready(endpoint_transmit(spec, batch[i]->Ready_0.packet)),
    )
}

/// What an endpoint send returns when `sent` came back for its first `count`
/// slots and the slot behind them is rejected for `rejection`.
pub open spec fn endpoint_send_result(
    count: int,
    sent: Result<usize, SendError>,
    rejection: Option<Error>,
) -> Result<usize, SendError> {
    match sent {
        Err(error) => Err(error),
        Ok(accepted) => if accepted < count {
            Ok(accepted)
        } else {
            match rejection {
                Some(kind) => Err(SendError { accepted: count as usize, kind }),
                None => Ok(count as usize),
            }
        },
    }
}

/// Prepares a correctness-first generic UDP endpoint for `socket`.
pub fn prepare_generic_udp_endpoint<S: UdpSocket>(socket: &S, spec: UdpEndpointSpec) -> (r: Result<
    GenericUdpEndpoint,
    Error,
>)
    ensures
        exists|mtu: usize, capabilities: UdpCapabilities|
            {
                &&& #[trigger] call_ensures(S::mtu, (socket,), mtu)
                &&& #[trigger] call_ensures(S::capabilities, (socket,), capabilities)
                &&& match (r, endpoint_verdict(mtu, capabilities, spec)) {
                    (Ok(endpoint), Ok(info)) => endpoint.request() == spec && endpoint.limits()
                        == info,
                    (Err(error), Err(expected)) => error == expected,
                    _ => false,
                }
            },
{
    let mtu: usize = socket.mtu();
    let capabilities = socket.capabilities();
    match validate_udp_endpoint_spec(mtu, capabilities, &spec) {
        Ok(info) => Ok(GenericUdpEndpoint { spec, info }),
        Err(error) => Err(error),
    }
}

/// Returns the unaccepted packets of a delegated send to their endpoint slots.
fn restore_unaccepted_endpoint_slots<B: PacketBuffer>(
    batch: &mut [TxSlot<UdpEndpointTransmit<B>>],
    converted: &mut Vec<TxSlot<UdpTransmit<B>>>,
    accepted: usize,
)
    requires
        accepted <= old(converted)@.len() <= old(batch)@.len(),
        forall|i: int|
            0 <= i < old(converted)@.len() ==> (#[trigger] old(batch)@[i]) is Taken,
    ensures
        final(batch)@.len() == old(batch)@.len(),
        forall|i: int|
            0 <= i < final(batch)@.len() ==> (#[trigger] final(batch)@[i]) == (if accepted <= i
                < old(converted)@.len() {
                match old(converted)@[i] {
                    TxSlot::Ready(tx) => TxSlot::Ready(UdpEndpointTransmit { packet: tx.packet }),
                    TxSlot::Taken => TxSlot::Taken,
                }
            } else {
                old(batch)@[i]
            }),
{
    let count: usize = converted.len();
    let ghost before = batch@;
    let ghost sent = converted@;
    let mut at: usize = accepted;
    while at < count
        invariant
            accepted <= at <= count,
            count == converted@.len(),
            count == sent.len(),
            count <= batch@.len(),
            batch@.len() == before.len(),
            forall|i: int| 0 <= i < count ==> (#[trigger] before[i]) is Taken,
            forall|i: int| at <= i < count ==> (#[trigger] converted@[i]) == sent[i],
            forall|i: int|
                0 <= i < batch@.len() ==> (#[trigger] batch@[i]) == (if accepted <= i < at {
                    match sent[i] {
                        TxSlot::Ready(tx) => TxSlot::Ready(
                            UdpEndpointTransmit { packet: tx.packet },
                        ),
                        TxSlot::Taken => TxSlot::Taken,
                    }
                } else {
                    before[i]
                }),
        decreases count - at,
    {
        let slot = &mut converted[at];
        if let Some(tx) = slot.take() {
            batch[at] = TxSlot::Ready(UdpEndpointTransmit::new(tx.packet));
        }
        at = at + 1;
    }
}

/// Sends a batch through a generic endpoint by delegating to [`UdpSocket::send`].
///
/// The slots before the first one that the endpoint rejects are handed to the
/// socket. Accepted endpoint slots are consumed in order; packets that the
/// socket does not accept return to their slots.
pub fn send_generic_udp_endpoint<S: UdpSocket>(
    socket: &mut S,
    endpoint: &mut GenericUdpEndpoint,
    batch: &mut [TxSlot<UdpEndpointTransmit<UdpTxBuffer<S>>>],
) -> (r: Result<usize, SendError>)
    requires
        endpoint_batch_wf::<UdpTxBuffer<S>>(old(batch)@),
    ensures
        *final(endpoint) == *old(endpoint),
        prefix_taken(old(batch)@, final(batch)@, accepted_count(r)),
        ({
            let count = first_rejected(old(endpoint).limits(), old(batch)@, 0);
            let rejection = if count < old(batch)@.len() {
                slot_rejection(old(endpoint).limits(), old(batch)@[count])
            } else {
                None
            };
            if count == 0 {
                &&& *final(socket) == *old(socket)
                &&& r == endpoint_send_result(0, Ok(0), rejection)
            } else {
                exists|sent: Result<usize, SendError>|
                    {
                        &&& #[trigger] S::may_send(
                            *old(socket),
                            *final(socket),
                            endpoint_transmits(old(endpoint).request(), old(batch)@, count),
                            sent,
                        )
                        &&& r == endpoint_send_result(count, sent, rejection)
                    }
            }
        }),
{
    let ghost original = batch@;
    let ghost info = endpoint.info;
    let ghost spec = endpoint.spec;
    let mut prefix_len: usize = 0;
    let mut deferred_error: Option<Error> = None;
    while prefix_len < batch.len()
        invariant_except_break
            deferred_error is None,
        invariant
            prefix_len <= batch@.len(),
            batch@ == original,
            info == endpoint.info,
            spec == endpoint.spec,
            endpoint_batch_wf::<UdpTxBuffer<S>>(original),
            first_rejected(info, original, 0) == first_rejected(info, original, prefix_len as int),
            forall|i: int| 0 <= i < prefix_len ==> (#[trigger] original[i]) is Ready,
        ensures
            prefix_len <= batch@.len(),
            batch@ == original,
            first_rejected(info, original, 0) == prefix_len,
            deferred_error == (if prefix_len < original.len() {
                slot_rejection(info, original[prefix_len as int])
            } else {
                None
            }),
            forall|i: int| 0 <= i < prefix_len ==> (#[trigger] original[i]) is Ready,
        decreases batch@.len() - prefix_len,
    {
        match batch[prefix_len].as_ref() {
            None => {
                deferred_error = Some(Error::InvalidBatch);
                break;
            },
            Some(tx) => {
                if let Err(error) = validate_udp_endpoint_packet(endpoint.info, tx.packet.len()) {
                    deferred_error = Some(error);
                    break;
                }
            },
        }
        prefix_len = prefix_len + 1;
    }

    if prefix_len == 0 {
        return match deferred_error {
            Some(kind) => Err(SendError { accepted: 0, kind }),
            None => Ok(0),
        };
    }
    let mut converted: Vec<TxSlot<UdpTransmit<UdpTxBuffer<S>>>> = Vec::with_capacity(prefix_len);
    let ghost transmits = endpoint_transmits(spec, original, prefix_len as int);
    let mut at: usize = 0;
    while at < prefix_len
        invariant
            at <= prefix_len <= batch@.len(),
            batch@.len() == original.len(),
            info == endpoint.info,
            spec == endpoint.spec,
            converted@ == transmits.take(at as int),
            transmits == endpoint_transmits(spec, original, prefix_len as int),
            forall|i: int| 0 <= i < prefix_len ==> (#[trigger] original[i]) is Ready,
            forall|i: int| 0 <= i < at ==> (#[trigger] batch@[i]) is Taken,
            forall|i: int| at <= i < batch@.len() ==> (#[trigger] batch@[i]) == original[i],
        decreases prefix_len - at,
    {
        assert(original[at as int] is Ready);
        let slot = &mut batch[at];
        if let Some(tx) = slot.take() {
            converted.push(
                TxSlot::Ready(
                    UdpTransmit {
                        packet: tx.packet,
                        destination: endpoint.spec.destination,
                        source_ip: endpoint.spec.source_ip,
                        source_port: endpoint.spec.source_port,
                        ecn: endpoint.spec.ecn,
                        gso_segment_size: endpoint.spec.gso_segment_size,
                    },
                ),
            );
        }
        proof {
            assert(converted@ =~= transmits.take(at as int + 1));
        }
        at = at + 1;
    }
    proof {
        assert(transmits.take(prefix_len as int) =~= transmits);
    }
    let sent = socket.send(converted.as_mut_slice());
    let accepted: usize = match &sent {
        Ok(count) => *count,
        Err(error) => error.accepted,
    };
    let ghost left = converted@;
    restore_unaccepted_endpoint_slots(batch, &mut converted, accepted);
    proof {
        assert forall|i: int| accepted <= i < batch@.len() implies (#[trigger] batch@[i])
            == original[i] by {
            if i < prefix_len {
                assert(left[i] == transmits[i]);
                assert(original[i] is Ready);
            }
        }
        assert(S::may_send(*old(socket), *socket, transmits, sent));
    }
    match sent {
        Ok(_) => {
            if accepted < prefix_len {
                return Ok(accepted);
            }
            match deferred_error {
                Some(kind) => Err(SendError { accepted: prefix_len, kind }),
                None => Ok(prefix_len),
            }
        },
        Err(error) => Err(error),
    }
}

/// A socket serves an endpoint request exactly where it can: the source address is of
/// the destination's family, and the payload goes out either whole, within the MTU, or in
/// segments that the socket makes, each within the MTU and no more of them than it sends
/// at once. The limits that come back are the MTU and what was asked for.
pub proof fn law_endpoints_are_granted_what_fits(
    mtu: usize,
    capabilities: UdpCapabilities,
    spec: &UdpEndpointSpec,
    r: Result<UdpEndpointInfo, Error>,
)
    requires
        call_ensures(validate_udp_endpoint_spec, (mtu, capabilities, spec), r),
        spec.gso_segment_size matches Some(segment) ==> segment@ > 0,
    ensures
        ({
            let same_family = match spec.source_ip {
                None => true,
                Some(IpAddr::V4(_)) => spec.destination is V4,
                Some(IpAddr::V6(_)) => spec.destination is V6,
            };
            let whole_fits = spec.payload_len matches Some(len) ==> len <= mtu;
            let segments_fit = spec.gso_segment_size matches Some(segment) ==> segment@ <= mtu && (
            spec.payload_len matches Some(len) ==> (capabilities.max_gso_segments matches Some(most)
                ==> len <= most@ * segment@));
            if !same_family || (spec.gso_segment_size is Some && !capabilities.gso) {
                r == Err::<UdpEndpointInfo, Error>(Error::InvalidPacket)
            } else if (spec.gso_segment_size is None && !whole_fits) || !segments_fit {
                r == Err::<UdpEndpointInfo, Error>(Error::OversizeForMtu)
            } else {
                &&& r matches Ok(info)
                &&& info.mtu == mtu
                &&& info.payload_len == spec.payload_len
                &&& info.gso_segment_size == spec.gso_segment_size
            }
        }),
{
    if let Some(segment) = spec.gso_segment_size {
        if let Some(len) = spec.payload_len {
            if let Some(most) = capabilities.max_gso_segments {
                law_pieces_cover_the_whole(len as int, segment@ as int);
                let count = piece_count(len as int, segment@ as int);
                if count <= most@ {
                    assert(count * segment@ <= most@ * segment@) by (nonlinear_arith)
                        requires
                            count <= most@,
                    ;
                } else {
                    assert((count - 1) * segment@ >= most@ * segment@) by (nonlinear_arith)
                        requires
                            count - 1 >= most@,
                    ;
                }
            }
        }
    }
}

/// So many pieces hold the whole, and one piece fewer does not.
pub proof fn law_pieces_cover_the_whole(total: int, piece: int)
    requires
        total >= 0,
        piece > 0,
    ensures
        piece_count(total, piece) >= 0,
        piece_count(total, piece) * piece >= total,
        total > 0 ==> (piece_count(total, piece) - 1) * piece < total,
        total == 0 ==> piece_count(total, piece) == 0,
{
    lemma_piece_count(total, piece);
    vstd::arithmetic::div_mod::lemma_fundamental_div_mod(total, piece);
    let whole = total / piece;
    let rest = total % piece;
    assert(whole >= 0) by (nonlinear_arith)
        requires
            total >= 0,
            piece > 0,
            whole == total / piece,
    ;
    assert(piece * whole == whole * piece) by (nonlinear_arith);
    assert((whole + 1) * piece == whole * piece + piece) by (nonlinear_arith);
    assert((whole - 1) * piece == whole * piece - piece) by (nonlinear_arith);
    if total == 0 {
        assert(whole == 0 && rest == 0) by (nonlinear_arith)
            requires
                whole == 0int / piece,
                rest == 0int % piece,
                piece > 0,
        ;
    }
}

/// A payload is refused exactly where it is not of the length that the endpoint was
/// prepared for, or does not fit the MTU and is not segmented.
pub proof fn law_payloads_are_held_to_the_limits(
    info: UdpEndpointInfo,
    payload_len: usize,
    r: Result<(), Error>,
)
    requires
        call_ensures(validate_udp_endpoint_packet, (info, payload_len), r),
    ensures
        ({
            let wrong_length = info.payload_len matches Some(len) && len != payload_len;
            let too_long = info.gso_segment_size is None && payload_len > info.mtu;
            &&& r is Ok <==> !wrong_length && !too_long
            &&& wrong_length ==> r == Err::<(), Error>(Error::InvalidPacket)
            &&& !wrong_length && too_long ==> r == Err::<(), Error>(Error::OversizeForMtu)
        }),
{
}

/// A prepared endpoint keeps the whole request, and its limits are those of the socket.
pub proof fn law_endpoints_keep_their_request<S: UdpSocket>(
    socket: &S,
    spec: UdpEndpointSpec,
    endpoint: GenericUdpEndpoint,
)
    requires
        call_ensures(
            prepare_generic_udp_endpoint::<S>,
            (socket, spec),
            Ok::<GenericUdpEndpoint, Error>(endpoint),
        ),
    ensures
        endpoint.request() == spec,
        endpoint.limits().payload_len == spec.payload_len,
        endpoint.limits().gso_segment_size == spec.gso_segment_size,
        exists|mtu: usize| #[trigger]
            call_ensures(S::mtu, (socket,), mtu) && endpoint.limits().mtu == mtu,
{
}

proof fn lemma_first_rejected<B: PacketBuffer>(
    info: UdpEndpointInfo,
    batch: Seq<TxSlot<UdpEndpointTransmit<B>>>,
    at: int,
)
    requires
        0 <= at <= batch.len(),
    ensures
        at <= first_rejected(info, batch, at) <= batch.len(),
        forall|i: int|
            at <= i < first_rejected(info, batch, at) ==> slot_rejection(info, #[trigger] batch[i])
                is None,
        first_rejected(info, batch, at) < batch.len() ==> slot_rejection(
            info,
            batch[first_rejected(info, batch, at)],
        ) is Some,
    decreases batch.len() - at,
{
    if at < batch.len() && slot_rejection(info, batch[at]) is None {
        lemma_first_rejected(info, batch, at + 1);
    }
}

/// What a send through an endpoint hands to the socket: the payloads of the first slots,
/// in order, each with the whole request of the endpoint. They end before the first slot
/// that is empty or whose payload the limits exclude, and only that keeps a send from
/// taking everything that the socket takes.
pub proof fn law_endpoint_sends_carry_the_request<S: UdpSocket>(r: Result<usize, SendError>)
    ensures
        forall|
            socket: &mut S,
            endpoint: &mut GenericUdpEndpoint,
            batch: &mut [TxSlot<UdpEndpointTransmit<UdpTxBuffer<S>>>],
        | #[trigger]
            call_ensures(send_generic_udp_endpoint::<S>, (socket, endpoint, batch), r)
                && batch@.len() > 0 && (batch@[0] matches TxSlot::Ready(first) && (
            endpoint.limits().payload_len matches Some(len) ==> first.packet.bytes().len() == len)
                && (endpoint.limits().gso_segment_size is None ==> first.packet.bytes().len()
                <= endpoint.limits().mtu)) ==> exists|
                offered: Seq<TxSlot<UdpTransmit<UdpTxBuffer<S>>>>,
                sent: Result<usize, SendError>,
            |
                {
                    let request = endpoint.request();
                    let limits = endpoint.limits();
                    &&& #[trigger] S::may_send(*socket, *final(socket), offered, sent)
                    &&& 0 < offered.len() <= batch@.len()
                    &&& forall|i: int|
                        0 <= i < offered.len() ==> {
                            &&& (#[trigger] offered[i]) matches TxSlot::Ready(tx)
                            &&& batch@[i] == TxSlot::Ready(
                                UdpEndpointTransmit { packet: tx.packet },
                            )
                            &&& tx.destination == request.destination
                            &&& tx.source_ip == request.source_ip
                            &&& tx.source_port == request.source_port
                            &&& tx.ecn == request.ecn
                            &&& tx.gso_segment_size == request.gso_segment_size
                            &&& limits.payload_len matches Some(len) ==> tx.packet.bytes().len()
                                == len
                            &&& limits.gso_segment_size is None ==> tx.packet.bytes().len()
                                <= limits.mtu
                        }
                    &&& offered.len() < batch@.len() ==> (batch@[offered.len() as int] matches TxSlot::Ready(
                        next,
                    ) ==> (limits.payload_len matches Some(len) && next.packet.bytes().len() != len)
                        || (limits.gso_segment_size is None && next.packet.bytes().len()
                        > limits.mtu))
                    &&& match sent {
                        Err(error) => r == Err::<usize, SendError>(error),
                        Ok(count) => if count < offered.len() {
                            r == Ok::<usize, SendError>(count)
                        } else if offered.len() == batch@.len() {
                            r matches Ok(all) && all == batch@.len()
                        } else {
                            r matches Err(error) && error.accepted == offered.len()
                        },
                    }
                },
{
    assert forall|
        socket: &mut S,
        endpoint: &mut GenericUdpEndpoint,
        batch: &mut [TxSlot<UdpEndpointTransmit<UdpTxBuffer<S>>>],
    | #[trigger]
        call_ensures(send_generic_udp_endpoint::<S>, (socket, endpoint, batch), r) implies {
        let count = first_rejected(endpoint.limits(), batch@, 0);
        &&& 0 <= count <= batch@.len()
        &&& forall|i: int|
            0 <= i < count ==> slot_rejection(endpoint.limits(), #[trigger] batch@[i]) is None
        &&& count < batch@.len() ==> slot_rejection(endpoint.limits(), batch@[count]) is Some
    } by {
        lemma_first_rejected(endpoint.limits(), batch@, 0);
    }
}

/// A send through an endpoint whose first slot is empty or excluded by the limits hands
/// nothing to the socket and says why.
pub proof fn law_endpoint_sends_stop_at_a_bad_slot<S: UdpSocket>(r: Result<usize, SendError>)
    ensures
        forall|
            socket: &mut S,
            endpoint: &mut GenericUdpEndpoint,
            batch: &mut [TxSlot<UdpEndpointTransmit<UdpTxBuffer<S>>>],
        | #[trigger]
            call_ensures(send_generic_udp_endpoint::<S>, (socket, endpoint, batch), r)
                && batch@.len() > 0 ==> {
                let limits = endpoint.limits();
                let reason = match batch@[0] {
                    TxSlot::Taken => Some(Error::InvalidBatch),
                    TxSlot::Ready(first) => if limits.payload_len matches Some(len)
                        && first.packet.bytes().len() != len {
                        Some(Error::InvalidPacket)
                    } else if limits.gso_segment_size is None && first.packet.bytes().len()
                        > limits.mtu {
                        Some(Error::OversizeForMtu)
                    } else {
                        None
                    },
                };
                reason matches Some(kind) ==> {
                    &&& *final(socket) == *socket
                    &&& final(batch)@ == batch@
                    &&& r == Err::<usize, SendError>(SendError { accepted: 0, kind })
                }
            },
{
    assert forall|
        socket: &mut S,
        endpoint: &mut GenericUdpEndpoint,
        batch: &mut [TxSlot<UdpEndpointTransmit<UdpTxBuffer<S>>>],
    | #[trigger]
        call_ensures(send_generic_udp_endpoint::<S>, (socket, endpoint, batch), r)
            && accepted_count(r) == 0 implies final(batch)@ =~= batch@ by {}
}

/// A plain transmit item and a plain endpoint request name a destination and ask for
/// nothing else.
pub proof fn law_plain_requests_ask_for_nothing<B>(
    packet: B,
    destination: SocketAddr,
    item: UdpTransmit<B>,
    spec: UdpEndpointSpec,
)
    requires
        call_ensures(UdpTransmit::<B>::new, (packet, destination), item),
        call_ensures(UdpEndpointSpec::new, (destination,), spec),
    ensures
        item.packet == packet && item.destination == destination && spec.destination == destination,
        item.source_ip is None && item.source_port is None && item.ecn is None,
        item.gso_segment_size is None,
        spec.source_ip is None && spec.source_port is None && spec.ecn is None,
        spec.gso_segment_size is None && spec.payload_len is None,
{
}

/// A send takes the first slots of a batch, as many as it says, and leaves the others as
/// they are. Sending all of them succeeds only where every slot was taken, and fails after
/// the number of slots that the error names.
pub proof fn law_sends_take_the_first_slots<S: UdpSocket>(
    max_rounds: usize,
    r: Result<usize, SendError>,
)
    ensures
        forall|socket: &mut S, batch: &mut [TxSlot<UdpTransmit<UdpTxBuffer<S>>>]| #[trigger]
            call_ensures(S::send, (socket, batch), r) ==> {
                let taken = match r {
                    Ok(accepted) => accepted,
                    Err(error) => error.accepted,
                };
                &&& taken <= batch@.len()
                &&& final(batch)@.len() == batch@.len()
                &&& forall|i: int| 0 <= i < taken ==> (#[trigger] final(batch)@[i]) is Taken
                &&& forall|i: int|
                    taken <= i < batch@.len() ==> #[trigger] final(batch)@[i] == batch@[i]
            },
        forall|socket: &mut S, batch: &mut [TxSlot<UdpTransmit<UdpTxBuffer<S>>>]|
            #![trigger call_ensures(S::send_all, (socket, batch, max_rounds), r)]
            call_ensures(S::send_all, (socket, batch, max_rounds), r) ==> {
                let taken = match r {
                    Ok(accepted) => accepted,
                    Err(error) => error.accepted,
                };
                &&& r matches Ok(total) ==> total == batch@.len()
                &&& taken <= batch@.len()
                &&& final(batch)@.len() == batch@.len()
                &&& forall|i: int| 0 <= i < taken ==> (#[trigger] final(batch)@[i]) is Taken
                &&& forall|i: int|
                    taken <= i < batch@.len() ==> #[trigger] final(batch)@[i] == batch@[i]
            },
{
}

/// Two addresses are of one family where both are IPv4 or both are IPv6.
pub proof fn law_families_are_compared(left: IpAddr, right: IpAddr, r: bool)
    requires
        call_ensures(same_ip_family, (left, right), r),
    ensures
        left is V4 && right is V4 ==> r,
        left is V6 && right is V6 ==> r,
        left is V4 && right is V6 ==> !r,
        left is V6 && right is V4 ==> !r,
{
}

/// Sending a batch to an endpoint succeeds only where every slot was taken, and fails after
/// the number of slots that the error names. The others stay as they are.
pub proof fn law_endpoint_batches_take_the_first_slots<S: UdpSocket>(
    max_rounds: usize,
    r: Result<usize, SendError>,
)
    ensures
        forall|
            socket: &mut S,
            endpoint: &mut S::Endpoint,
            batch: &mut [TxSlot<UdpEndpointTransmit<UdpTxBuffer<S>>>],
        |
            #![trigger call_ensures(
                S::send_all_to_udp_endpoint,
                (socket, endpoint, batch, max_rounds),
                r,
            )]
            call_ensures(
                S::send_all_to_udp_endpoint,
                (socket, endpoint, batch, max_rounds),
                r,
            ) ==> {
                let taken = match r {
                    Ok(accepted) => accepted,
                    Err(error) => error.accepted,
                };
                &&& r matches Ok(total) ==> total == batch@.len()
                &&& taken <= batch@.len()
                &&& final(batch)@.len() == batch@.len()
                &&& forall|i: int| 0 <= i < taken ==> (#[trigger] final(batch)@[i]) is Taken
                &&& forall|i: int|
                    taken <= i < batch@.len() ==> #[trigger] final(batch)@[i] == batch@[i]
            },
{
}

} // verus!
