//! Filling and sending a batch of packets through a prepared endpoint.

use vstd::prelude::*;

use crate::batch::{accepted_count, SendError, TxSlot};
use crate::buffer::{PacketBuffer, PacketBufferMut};
use crate::bytes::filled_with;
use crate::error::Error;
use crate::ring::{reversed, smaller};
use crate::udp::{UdpEndpointInfo, UdpEndpointTransmit, UdpSocket, UdpTxBuffer, UdpTxBufferMut};

verus! {

/// A batch of `count` packets that is about to be sent through an endpoint.
pub struct UdpEndpointBatch<'a, S: UdpSocket> {
    /// The socket.
    pub socket: &'a mut S,
    /// The prepared endpoint.
    pub endpoint: &'a mut S::Endpoint,
    /// Number of packets.
    pub count: usize,
}

/// The socket gave `fresh` buffers and knows the limits `info` of the endpoint then.
pub open spec fn batch_given<S: UdpSocket>(
    before: S,
    allocated: S,
    endpoint: S::Endpoint,
    count: usize,
    fresh: Seq<UdpTxBufferMut<S>>,
    info: UdpEndpointInfo,
) -> bool {
    &&& S::may_allocate(
        before,
        allocated,
        count,
        fresh,
        Ok::<usize, Error>(fresh.len() as usize),
    )
    &&& call_ensures(S::udp_endpoint_info, (&allocated, &endpoint), info)
}

/// The area that a packet in `buffer` is written into: zeros, as many as the endpoint's
/// MTU and the buffer allow.
pub open spec fn fill_area<B: PacketBuffer>(info: UdpEndpointInfo, buffer: B) -> Seq<u8> {
    zero_bytes(smaller(info.mtu as int, buffer.tailroom_spec() as int) as nat)
}

impl<'a, S: UdpSocket> UdpEndpointBatch<'a, S> {
    /// Allocates the packets, has `fill` write each one, and sends them. `fill` gets the
    /// packet's index and a zeroed area, as large as the endpoint's MTU and the packet's
    /// buffer allow, and returns how many bytes of it to send. A length beyond the area
    /// is an invalid packet.
    #[verifier::loop_isolation(false)]
    pub fn send<F: Fn(usize, &mut [u8]) -> usize>(self, fill: F) -> (r: Result<usize, SendError>)
        requires
            forall|index: usize, area: &mut [u8]| #[trigger] call_requires(fill, (index, area)),
        ensures
            ({
                ||| r matches Err(error) && error.accepted == 0 && exists|
                    fresh: Seq<UdpTxBufferMut<S>>,
                | #[trigger]
                    S::may_allocate(
                        *old(self.socket),
                        *final(self.socket),
                        self.count,
                        fresh,
                        Err(error.kind),
                    )
                ||| exists|allocated: S, fresh: Seq<UdpTxBufferMut<S>>, info: UdpEndpointInfo|
                    {
                        &&& #[trigger] batch_given(
                            *old(self.socket),
                            allocated,
                            *old(self.endpoint),
                            self.count,
                            fresh,
                            info,
                        )
                        &&& {
                            ||| {
                                &&& r == Err::<usize, SendError>(
                                    SendError { accepted: 0, kind: Error::InvalidPacket },
                                )
                                &&& *final(self.socket) == allocated
                                &&& exists|index: usize, area: &mut [u8], len: usize|
                                    {
                                        &&& #[trigger] call_ensures(fill, (index, area), len)
                                        &&& index < fresh.len()
                                        &&& area@ == fill_area(info, fresh[index as int])
                                        &&& len > area@.len() || len > final(area)@.len()
                                    }
                            }
                            ||| exists|
                                slots: Seq<TxSlot<UdpEndpointTransmit<UdpTxBuffer<S>>>>,
                            |
                                {
                                    &&& #[trigger] S::may_send_to_endpoint(
                                        allocated,
                                        *final(self.socket),
                                        *old(self.endpoint),
                                        slots,
                                        r,
                                    )
                                    &&& slots.len() == fresh.len()
                                    &&& accepted_count(r) <= slots.len()
                                    &&& forall|k: int|
                                        0 <= k < slots.len() ==> {
                                            &&& (#[trigger] slots[k]) matches TxSlot::Ready(tx)
                                            &&& tx.packet.wf()
                                            &&& exists|area: &mut [u8], len: usize|
                                                {
                                                    &&& #[trigger] call_ensures(
                                                        fill,
                                                        (k as usize, area),
                                                        len,
                                                    )
                                                    &&& area@ == fill_area(info, fresh[k])
                                                    &&& len <= area@.len()
                                                    &&& tx.packet.bytes() == final(area)@.take(
                                                        len as int,
                                                    )
                                                }
                                        }
                                }
                        }
                    }
            }),
    {
        let ghost start = *self.socket;
        let ghost through = *self.endpoint;
        let ghost wanted = self.count;
        let mut buffers: Vec<UdpTxBufferMut<S>> = Vec::new();
        let outcome = self.socket.allocate_tx_batch(&mut buffers, self.count);
        proof {
            assert(buffers@.skip(0) =~= buffers@);
            assert(S::may_allocate(start, *self.socket, wanted, buffers@, outcome));
        }
        if let Err(kind) = outcome {
            return Err(SendError { accepted: 0, kind });
        }
        let ghost allocated = *self.socket;
        let ghost fresh = buffers@;
        let count: usize = buffers.len();
        let info = self.socket.udp_endpoint_info(self.endpoint);
        let mtu: usize = info.mtu;
        assert(batch_given(start, allocated, through, wanted, fresh, info));
        let mut left = reversed(buffers);
        let mut slots: Vec<TxSlot<UdpEndpointTransmit<UdpTxBuffer<S>>>> = Vec::with_capacity(count);
        while left.len() > 0
            invariant
                count == fresh.len(),
                left@.len() + slots@.len() == count,
                mtu == info.mtu,
                *self.socket == allocated,
                *self.endpoint == through,
                forall|i: int|
                    0 <= i < left@.len() ==> (#[trigger] left@[i]) == fresh[count - 1 - i],
                forall|i: int|
                    0 <= i < fresh.len() ==> (#[trigger] fresh[i]).wf() && fresh[i].bytes().len()
                        == 0,
                forall|index: usize, area: &mut [u8]| #[trigger] call_requires(fill, (index, area)),
                forall|k: int|
                    0 <= k < slots@.len() ==> {
                        &&& (#[trigger] slots@[k]) matches TxSlot::Ready(tx)
                        &&& tx.packet.wf()
                        &&& exists|area: &mut [u8], len: usize|
                            {
                                &&& #[trigger] call_ensures(fill, (k as usize, area), len)
                                &&& area@ == fill_area(info, fresh[k])
                                &&& len <= area@.len()
                                &&& tx.packet.bytes() == final(area)@.take(len as int)
                            }
                    },
            decreases left@.len(),
        {
            let index: usize = slots.len();
            let ghost held = slots@;
            if let Some(buffer) = left.pop() {
                assert(buffer == fresh[index as int]);
                let mut packet = buffer;
                let room: usize = packet.tailroom();
                let length: usize = if mtu < room {
                    mtu
                } else {
                    room
                };
                let mut area = filled_with(0u8, length);
                assert(area@ == fill_area(info, fresh[index as int]));
                let filled: usize = fill(index, area.as_mut_slice());
                let ghost written = area@;
                assert(exists|lent: &mut [u8]|
                    {
                        &&& #[trigger] call_ensures(fill, (index, lent), filled)
                        &&& lent@ == fill_area(info, fresh[index as int])
                        &&& final(lent)@ == written
                    });
                if filled > length || filled > area.len() {
                    proof {
                        let lent = choose|lent: &mut [u8]|
                            {
                                &&& #[trigger] call_ensures(fill, (index, lent), filled)
                                &&& lent@ == fill_area(info, fresh[index as int])
                                &&& final(lent)@ == written
                            };
                        assert(call_ensures(fill, (index, lent), filled));
                        assert(lent@.len() == length);
                        assert(index < fresh.len());
                        assert(filled > lent@.len() || filled > final(lent)@.len());
                    }
                    return Err(SendError { accepted: 0, kind: Error::InvalidPacket });
                }
                area.truncate(filled);
                let _ = packet.extend_from_slice(area.as_slice());
                proof {
                    assert(packet.bytes() =~= written.take(filled as int));
                }
                slots.push(TxSlot::Ready(UdpEndpointTransmit::new(packet.freeze())));
                proof {
                    assert forall|k: int| 0 <= k < slots@.len() implies {
                        &&& (#[trigger] slots@[k]) matches TxSlot::Ready(tx)
                        &&& tx.packet.wf()
                        &&& exists|area: &mut [u8], len: usize|
                            {
                                &&& #[trigger] call_ensures(fill, (k as usize, area), len)
                                &&& area@ == fill_area(info, fresh[k])
                                &&& len <= area@.len()
                                &&& tx.packet.bytes() == final(area)@.take(len as int)
                            }
                    } by {
                        if k < held.len() {
                            assert(slots@[k] == held[k]);
                        } else {
                            let lent = choose|lent: &mut [u8]|
                                {
                                    &&& #[trigger] call_ensures(fill, (index, lent), filled)
                                    &&& lent@ == fill_area(info, fresh[index as int])
                                    &&& final(lent)@ == written
                                };
                            assert(k as usize == index);
                            assert(lent@.len() == length);
                            assert(call_ensures(fill, (k as usize, lent), filled));
                        }
                    }
                }
            }
        }
        let ghost offered = slots@;
        let result = self.socket.send_to_udp_endpoint(self.endpoint, slots.as_mut_slice());
        assert(S::may_send_to_endpoint(allocated, *self.socket, through, offered, result));
        result
    }
}

/// Zeros.
pub open spec fn zero_bytes(count: nat) -> Seq<u8> {
    Seq::new(count, |i: int| 0u8)
}

/// Batches on every UDP socket.
pub trait UdpEndpointBatches: UdpSocket {
    /// Starts a batch of `count` packets through `endpoint`.
    fn udp_endpoint_batch<'a>(
        &'a mut self,
        endpoint: &'a mut Self::Endpoint,
        count: usize,
    ) -> (r: UdpEndpointBatch<'a, Self>)
        ensures
            *r.socket == *old(self),
            *final(r.socket) == *final(self),
            *r.endpoint == *old(endpoint),
            *final(r.endpoint) == *final(endpoint),
            r.count == count,
    ;
}

impl<S: UdpSocket> UdpEndpointBatches for S {
    fn udp_endpoint_batch<'a>(
        &'a mut self,
        endpoint: &'a mut Self::Endpoint,
        count: usize,
    ) -> UdpEndpointBatch<'a, Self> {
        UdpEndpointBatch { socket: self, endpoint, count }
    }
}

/// A packet is filled into zeros: as many as the endpoint's packets may be long and the
/// buffer holds.
pub proof fn law_packets_are_filled_into_zeros<B: PacketBuffer>(info: UdpEndpointInfo, buffer: B)
    ensures
        fill_area(info, buffer).len() <= info.mtu,
        fill_area(info, buffer).len() <= buffer.tailroom_spec(),
        fill_area(info, buffer).len() == info.mtu || fill_area(info, buffer).len()
            == buffer.tailroom_spec(),
        forall|i: int|
            0 <= i < fill_area(info, buffer).len() ==> #[trigger] fill_area(info, buffer)[i] == 0,
{
}

} // verus!
