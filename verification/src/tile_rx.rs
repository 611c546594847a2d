//! Receive side of a tile: classified packets on their way to the lanes.

use vstd::prelude::*;

use crate::queue::Queue;
use crate::ring::{popped, pushed, reversed};
use crate::tile::{
    IngressClassifier, IngressDecision, SocketIndex, TileRxBatch, TileRxPacket,
};
use crate::tile_tx::{bump, bumped, lemma_bumped_adds};
use crate::udp::{UdpReceive, UdpRxBuffer, UdpSocket};

verus! {

/// The packets of all batches in order.
pub open spec fn batch_packets<S: UdpSocket>(batches: Seq<TileRxBatch<S>>) -> Seq<TileRxPacket<S>>
    decreases batches.len(),
{
    if batches.len() == 0 {
        Seq::empty()
    } else {
        batch_packets(batches.drop_last()) + batches.last()@
    }
}

/// The number of packets in all streams.
pub open spec fn stream_total<P>(streams: Seq<Seq<P>>) -> nat
    decreases streams.len(),
{
    if streams.len() == 0 {
        0
    } else {
        stream_total(streams.drop_last()) + streams.last().len()
    }
}

proof fn lemma_stream_total_update<P>(streams: Seq<Seq<P>>, lane: int, stream: Seq<P>)
    requires
        0 <= lane < streams.len(),
    ensures
        stream_total(streams.update(lane, stream)) + streams[lane].len() == stream_total(streams)
            + stream.len(),
    decreases streams.len(),
{
    let updated = streams.update(lane, stream);
    if lane == streams.len() - 1 {
        assert(updated.drop_last() =~= streams.drop_last());
    } else {
        assert(updated.drop_last() =~= streams.drop_last().update(lane, stream));
        lemma_stream_total_update(streams.drop_last(), lane, stream);
    }
}

/// The lane's form of a packet that `source` received.
pub open spec fn lane_packet<S: UdpSocket>(
    received: UdpReceive<UdpRxBuffer<S>, S::RecvMeta>,
    source: SocketIndex,
) -> TileRxPacket<S> {
    TileRxPacket { meta: received.meta, packet: received.packet, source_socket: source }
}

/// The packets among `items` that the decisions deliver to `lane`, in order.
pub open spec fn delivered_to<S: UdpSocket>(
    items: Seq<UdpReceive<UdpRxBuffer<S>, S::RecvMeta>>,
    decisions: Seq<IngressDecision>,
    source: SocketIndex,
    lane: int,
) -> Seq<TileRxPacket<S>>
    decreases items.len(),
{
    if items.len() == 0 {
        Seq::empty()
    } else {
        let earlier = delivered_to::<S>(items.drop_last(), decisions.drop_last(), source, lane);
        if decisions.last() == IngressDecision::Deliver(lane as usize) && lane <= usize::MAX {
            earlier.push(lane_packet::<S>(items.last(), source))
        } else {
            earlier
        }
    }
}

/// How many decisions drop their packet.
pub open spec fn drop_decisions(decisions: Seq<IngressDecision>) -> nat
    decreases decisions.len(),
{
    if decisions.len() == 0 {
        0
    } else {
        drop_decisions(decisions.drop_last()) + (if decisions.last() == IngressDecision::Drop {
            1nat
        } else {
            0
        })
    }
}

/// How many decisions name a lane that does not exist.
pub open spec fn stray_decisions(decisions: Seq<IngressDecision>, lanes: nat) -> nat
    decreases decisions.len(),
{
    if decisions.len() == 0 {
        0
    } else {
        stray_decisions(decisions.drop_last(), lanes) + (match decisions.last() {
            IngressDecision::Deliver(lane) => if lane >= lanes {
                1nat
            } else {
                0
            },
            IngressDecision::Drop => 0,
        })
    }
}

/// The packets on their way to one lane.
pub struct LaneState<S: UdpSocket> {
    /// The packets of each queued batch, oldest first.
    pub batches: Seq<Seq<TileRxPacket<S>>>,
    /// The packets that are being collected.
    pub filling: Seq<TileRxPacket<S>>,
}

/// The lane after its collected packets were handed to its queue, which holds at most
/// `limit` batches. A full queue loses them.
pub open spec fn handed_over<S: UdpSocket>(state: LaneState<S>, limit: nat) -> LaneState<S> {
    if state.filling.len() == 0 {
        state
    } else {
        LaneState {
            batches: if state.batches.len() < limit {
                state.batches.push(state.filling)
            } else {
                state.batches
            },
            filling: Seq::empty(),
        }
    }
}

/// The lane after one more packet was collected for it.
pub open spec fn after_packet<S: UdpSocket>(
    state: LaneState<S>,
    limit: nat,
    batch_size: nat,
    packet: TileRxPacket<S>,
) -> LaneState<S> {
    let more = LaneState { batches: state.batches, filling: state.filling.push(packet) };
    if more.filling.len() >= batch_size {
        handed_over(more, limit)
    } else {
        more
    }
}

/// The lane after `packets` were collected for it in order.
pub open spec fn after_packets<S: UdpSocket>(
    state: LaneState<S>,
    limit: nat,
    batch_size: nat,
    packets: Seq<TileRxPacket<S>>,
) -> LaneState<S>
    decreases packets.len(),
{
    if packets.len() == 0 {
        state
    } else {
        after_packet(
            after_packets(state, limit, batch_size, packets.drop_last()),
            limit,
            batch_size,
            packets.last(),
        )
    }
}

/// Collecting two runs of packets is collecting both in one go.
pub proof fn lemma_after_packets_joins<S: UdpSocket>(
    state: LaneState<S>,
    limit: nat,
    batch_size: nat,
    first: Seq<TileRxPacket<S>>,
    second: Seq<TileRxPacket<S>>,
)
    ensures
        after_packets(
            after_packets(state, limit, batch_size, first),
            limit,
            batch_size,
            second,
        ) == after_packets(state, limit, batch_size, first + second),
    decreases second.len(),
{
    if second.len() == 0 {
        assert(first + second =~= first);
    } else {
        lemma_after_packets_joins(state, limit, batch_size, first, second.drop_last());
        assert((first + second).drop_last() =~= first + second.drop_last());
    }
}

/// Received packets of all lanes: full batches in bounded queues, and one batch
/// per lane that is still being filled.
pub struct RxLanes<S: UdpSocket> {
    queues: Vec<Queue<TileRxBatch<S>>>,
    filling: Vec<TileRxBatch<S>>,
    spare: Queue<TileRxBatch<S>>,
    batch_size: usize,
}

impl<S: UdpSocket> RxLanes<S> {
    /// The number of lanes.
    pub closed spec fn lanes(&self) -> nat {
        self.queues@.len()
    }

    /// The batches queued for a lane, oldest first.
    pub closed spec fn queued(&self, lane: int) -> Seq<TileRxBatch<S>> {
        self.queues@[lane]@
    }

    /// The number of batches that a lane's queue holds at most.
    pub closed spec fn queue_limit(&self, lane: int) -> nat {
        self.queues@[lane].spec_capacity()
    }

    /// A lane's queue takes no more batches.
    pub open spec fn lane_full(&self, lane: int) -> bool {
        self.queued(lane).len() >= self.queue_limit(lane)
    }

    /// The packets that are being collected for a lane.
    pub closed spec fn collecting(&self, lane: int) -> Seq<TileRxPacket<S>> {
        self.filling@[lane]@
    }

    /// The empty batch containers that wait to be used again, oldest first.
    pub closed spec fn spare_batches(&self) -> Seq<TileRxBatch<S>> {
        self.spare@
    }

    /// The number of containers that are kept at most.
    pub closed spec fn spare_limit(&self) -> nat {
        self.spare.spec_capacity()
    }

    /// The containers are those of `other`.
    pub open spec fn same_spare(&self, other: &Self) -> bool {
        self.spare_batches() == other.spare_batches() && self.spare_limit() == other.spare_limit()
    }

    /// The containers are those of `other` without the oldest one, if there was any.
    pub open spec fn spare_taken(&self, other: &Self) -> bool {
        &&& self.spare_batches() == popped(other.spare_batches()).1
        &&& self.spare_limit() == other.spare_limit()
    }

    /// The containers are those of `other` with one more, which is empty, if there was
    /// room for it.
    pub open spec fn spare_kept(&self, other: &Self) -> bool {
        &&& self.spare_limit() == other.spare_limit()
        &&& exists|batch: TileRxBatch<S>|
            {
                &&& #[trigger] batch@.len() == 0
                &&& self.spare_batches() == pushed(
                    other.spare_batches(),
                    other.spare_limit(),
                    batch,
                ).1
            }
    }

    /// The number of packets after which a batch is handed to its lane.
    pub closed spec fn batch_limit(&self) -> nat {
        self.batch_size as nat
    }

    /// All packets on their way to a lane, oldest first.
    pub open spec fn stream(&self, lane: int) -> Seq<TileRxPacket<S>> {
        batch_packets(self.queued(lane)) + self.collecting(lane)
    }

    /// The packets on their way to a lane, batch by batch.
    pub open spec fn lane_state(&self, lane: int) -> LaneState<S> {
        LaneState {
            batches: Seq::new(self.queued(lane).len(), |i: int| self.queued(lane)[i]@),
            filling: self.collecting(lane),
        }
    }

    /// All packets on their way to each lane.
    pub open spec fn streams(&self) -> Seq<Seq<TileRxPacket<S>>> {
        Seq::new(self.lanes(), |lane: int| self.stream(lane))
    }

    /// Every lane has a consistent queue and a batch to fill, and spare batches
    /// are empty.
    pub closed spec fn wf(&self) -> bool {
        &&& self.filling@.len() == self.queues@.len()
        &&& self.batch_size > 0
        &&& self.spare.wf()
        &&& forall|lane: int|
            0 <= lane < self.queues@.len() ==> (#[trigger] self.queues@[lane]).wf()
        &&& forall|i: int|
            0 <= i < self.spare@.len() ==> (#[trigger] self.spare@[i])@.len() == 0
    }

    /// `self` differs from `other` at most in what lane `lane` holds and in spare batches.
    pub open spec fn same_elsewhere(&self, other: &Self, lane: int) -> bool {
        &&& self.lanes() == other.lanes()
        &&& self.batch_limit() == other.batch_limit()
        &&& forall|l: int|
            #![trigger self.queued(l)]
            #![trigger self.collecting(l)]
            #![trigger self.queue_limit(l)]
            0 <= l < self.lanes() ==> {
                &&& self.queue_limit(l) == other.queue_limit(l)
                &&& l != lane ==> self.queued(l) == other.queued(l) && self.collecting(l)
                    == other.collecting(l)
            }
    }

    /// Creates empty lanes whose queues hold `queue_capacity` batches each.
    pub fn new(lane_count: usize, queue_capacity: usize, spare_capacity: usize, batch_size: usize) -> (r:
        Self)
        requires
            batch_size > 0,
            queue_capacity * 16 <= isize::MAX,
            spare_capacity * 16 <= isize::MAX,
        ensures
            r.wf(),
            r.lanes() == lane_count,
            r.batch_limit() == batch_size,
            r.spare_batches().len() == 0,
            r.spare_limit() == (if spare_capacity == 0 {
                1
            } else {
                spare_capacity as nat
            }),
            forall|lane: int|
                0 <= lane < lane_count ==> {
                    &&& (#[trigger] r.queued(lane)).len() == 0
                    &&& r.collecting(lane).len() == 0
                    &&& r.queue_limit(lane) == (if queue_capacity == 0 {
                        1
                    } else {
                        queue_capacity as nat
                    })
                },
    {
        let mut queues: Vec<Queue<TileRxBatch<S>>> = Vec::with_capacity(lane_count);
        let mut filling: Vec<TileRxBatch<S>> = Vec::with_capacity(lane_count);
        let mut lane: usize = 0;
        while lane < lane_count
            invariant
                lane <= lane_count,
                queue_capacity * 16 <= isize::MAX,
                queues@.len() == lane,
                filling@.len() == lane,
                forall|l: int|
                    0 <= l < lane ==> {
                        &&& (#[trigger] queues@[l]).wf()
                        &&& queues@[l]@.len() == 0
                        &&& queues@[l].spec_capacity() == (if queue_capacity == 0 {
                            1
                        } else {
                            queue_capacity as nat
                        })
                    },
                forall|l: int| 0 <= l < lane ==> (#[trigger] filling@[l])@.len() == 0,
            decreases lane_count - lane,
        {
            queues.push(Queue::new(queue_capacity));
            filling.push(TileRxBatch::with_capacity(batch_size));
            lane = lane + 1;
        }
        RxLanes { queues, filling, spare: Queue::new(spare_capacity), batch_size }
    }

    /// Returns the number of lanes.
    pub fn lane_count(&self) -> (r: usize)
        ensures
            r == self.lanes(),
    {
        self.queues.len()
    }

    /// Takes the oldest batch of a lane.
    pub fn pop_batch(&mut self, lane: usize) -> (r: Option<TileRxBatch<S>>)
        requires
            old(self).wf(),
            lane < old(self).lanes(),
        ensures
            final(self).wf(),
            final(self).same_elsewhere(old(self), lane as int),
            final(self).same_spare(old(self)),
            final(self).collecting(lane as int) == old(self).collecting(lane as int),
            if old(self).queued(lane as int).len() > 0 {
                &&& r == Some(old(self).queued(lane as int)[0])
                &&& final(self).queued(lane as int) == old(self).queued(lane as int).skip(1)
            } else {
                &&& r is None
                &&& final(self).queued(lane as int) == old(self).queued(lane as int)
            },
    {
        self.queues[lane].pop()
    }

    /// Returns an empty batch container, a recycled one if there is one.
    pub fn alloc_batch(&mut self) -> (r: TileRxBatch<S>)
        requires
            old(self).wf(),
        ensures
            final(self).wf(),
            final(self).same_elsewhere(old(self), -1),
            final(self).spare_taken(old(self)),
            r@.len() == 0,
            popped(old(self).spare_batches()).0 matches Some(batch) ==> r == batch,
    {
        match self.spare.pop() {
            Some(batch) => {
                proof {
                    assert(old(self).spare@[0]@.len() == 0);
                    assert forall|i: int| 0 <= i < self.spare@.len() implies (
                    #[trigger] self.spare@[i])@.len() == 0 by {
                        assert(self.spare@[i] == old(self).spare@[i + 1]);
                    }
                }
                batch
            },
            None => TileRxBatch::with_capacity(self.batch_size),
        }
    }

    /// Takes back a batch container; packets still in it are dropped.
    pub fn recycle_batch(&mut self, batch: TileRxBatch<S>)
        requires
            old(self).wf(),
        ensures
            final(self).wf(),
            final(self).same_elsewhere(old(self), -1),
            final(self).spare_kept(old(self)),
    {
        let mut batch = batch;
        batch.clear();
        let capacity: usize = batch.capacity();
        if capacity < self.batch_size {
            batch.reserve(self.batch_size - capacity);
        }
        let ghost emptied = batch;
        let _ = self.spare.push(batch);
        proof {
            assert(emptied@.len() == 0);
            assert(self.spare_batches() == pushed(
                old(self).spare_batches(),
                old(self).spare_limit(),
                emptied,
            ).1);
            assert forall|i: int| 0 <= i < self.spare@.len() implies (
            #[trigger] self.spare@[i])@.len() == 0 by {
                if i < old(self).spare@.len() {
                    assert(self.spare@[i] == old(self).spare@[i]);
                }
            }
        }
    }

    /// Hands the collected packets of a lane to its queue. A full queue loses
    /// them, and they are counted.
    pub fn flush_batch(&mut self, lane: usize, rx_queue_drops: &mut u64)
        requires
            old(self).wf(),
            lane < old(self).lanes(),
        ensures
            final(self).wf(),
            final(self).same_elsewhere(old(self), lane as int),
            final(self).collecting(lane as int).len() == 0,
            final(self).lane_state(lane as int) == handed_over(
                old(self).lane_state(lane as int),
                old(self).queue_limit(lane as int),
            ),
            ({
                let queued = old(self).queued(lane as int);
                let collected = old(self).collecting(lane as int);
                if collected.len() == 0 || queued.len() < old(self).queue_limit(lane as int) {
                    &&& *final(rx_queue_drops) == *old(rx_queue_drops)
                    &&& final(self).stream(lane as int) == old(self).stream(lane as int)
                    &&& collected.len() == 0 ==> final(self).queued(lane as int) == queued
                    &&& collected.len() > 0 ==> {
                        &&& final(self).queued(lane as int).len() == queued.len() + 1
                        &&& queued.is_prefix_of(final(self).queued(lane as int))
                        &&& final(self).queued(lane as int).last()@ == collected
                    }
                } else {
                    &&& *final(rx_queue_drops) == bumped(*old(rx_queue_drops), collected.len())
                    &&& final(self).queued(lane as int) == queued
                }
            }),
    {
        if self.filling[lane].is_empty() {
            return;
        }
        let mut batch = self.alloc_batch();
        proof {
            assert(self.queued(lane as int) == old(self).queued(lane as int));
            assert(self.collecting(lane as int) == old(self).collecting(lane as int));
        }
        let ghost between = *self;
        core::mem::swap(&mut self.filling[lane], &mut batch);
        let count: usize = batch.len();
        let ghost full = batch;
        match self.queues[lane].push(batch) {
            Ok(_) => {
                proof {
                    let queued = old(self).queued(lane as int);
                    assert(self.queued(lane as int) == queued.push(full));
                    assert(self.lane_state(lane as int).batches =~= handed_over(
                        old(self).lane_state(lane as int),
                        old(self).queue_limit(lane as int),
                    ).batches);
                    assert(self.collecting(lane as int) =~= Seq::empty());
                    assert(queued.push(full).drop_last() =~= queued);
                    assert(self.stream(lane as int) =~= old(self).stream(lane as int));
                    assert forall|l: int| 0 <= l < self.lanes() && l != lane implies self.queued(l)
                        == old(self).queued(l) && self.collecting(l) == old(self).collecting(
                        l,
                    ) && self.queue_limit(l) == old(self).queue_limit(l) by {
                        assert(between.queued(l) == old(self).queued(l));
                        assert(between.collecting(l) == old(self).collecting(l));
                    }
                }
            },
            Err(batch) => {
                bump(rx_queue_drops, count);
                let ghost before_recycle = *self;
                proof {
                    assert forall|l: int| 0 <= l < self.lanes() && l != lane implies self.queued(l)
                        == old(self).queued(l) && self.collecting(l) == old(self).collecting(
                        l,
                    ) && self.queue_limit(l) == old(self).queue_limit(l) by {
                        assert(between.queued(l) == old(self).queued(l));
                        assert(between.collecting(l) == old(self).collecting(l));
                    }
                }
                self.recycle_batch(batch);
                proof {
                    assert forall|l: int| 0 <= l < self.lanes() implies self.queued(l)
                        == before_recycle.queued(l) && self.collecting(l)
                        == before_recycle.collecting(l) && self.queue_limit(l)
                        == before_recycle.queue_limit(l) by {}
                    assert(self.lane_state(lane as int).batches =~= old(self).lane_state(
                        lane as int,
                    ).batches);
                    assert(self.collecting(lane as int) =~= Seq::empty());
                }
            },
        }
    }
}

/// Every one of `items` is accounted for: on its way to the lane that its
/// decision names, or counted as dropped. `overflow` packets were lost to full
/// queues. What was queued for a lane stays queued. The packets of a lane whose queue is
/// not full are the earlier ones followed by those delivered to it, in order.
pub open spec fn dispatched<S: UdpSocket>(
    before: RxLanes<S>,
    after: RxLanes<S>,
    items: Seq<UdpReceive<UdpRxBuffer<S>, S::RecvMeta>>,
    decisions: Seq<IngressDecision>,
    source: SocketIndex,
    overflow: nat,
) -> bool {
    &&& after.lanes() == before.lanes()
    &&& decisions.len() == items.len()
    &&& stream_total(after.streams()) + overflow + drop_decisions(decisions) + stray_decisions(
        decisions,
        before.lanes(),
    ) == stream_total(before.streams()) + items.len()
    &&& forall|lane: int|
        0 <= lane < before.lanes() && (overflow == 0 || !after.lane_full(lane)) ==> (
        #[trigger] after.stream(lane)) == before.stream(lane) + delivered_to::<S>(
            items,
            decisions,
            source,
            lane,
        )
    &&& forall|lane: int|
        0 <= lane < before.lanes() && before.lane_full(lane) ==> #[trigger] after.lane_full(lane)
    &&& forall|lane: int|
        0 <= lane < before.lanes() ==> before.queued(lane).is_prefix_of(
            #[trigger] after.queued(lane),
        )
}

/// The lane took `taken`, batch by batch as far as its queue went.
pub open spec fn lane_took<S: UdpSocket>(
    before: RxLanes<S>,
    after: RxLanes<S>,
    lane: int,
    taken: Seq<TileRxPacket<S>>,
) -> bool {
    &&& after.queue_limit(lane) == before.queue_limit(lane)
    &&& after.lane_state(lane) == after_packets(
        before.lane_state(lane),
        before.queue_limit(lane),
        before.batch_limit(),
        taken,
    )
}

/// The lane took `taken`, and if the pass is `done`, what was still being collected for
/// it was handed over. What was queued for it stays queued.
pub open spec fn lane_received<S: UdpSocket>(
    before: RxLanes<S>,
    after: RxLanes<S>,
    lane: int,
    taken: Seq<TileRxPacket<S>>,
    done: bool,
) -> bool {
    let collected = after_packets(
        before.lane_state(lane),
        before.queue_limit(lane),
        before.batch_limit(),
        taken,
    );
    &&& after.queue_limit(lane) == before.queue_limit(lane)
    &&& before.queued(lane).is_prefix_of(after.queued(lane))
    &&& after.lane_state(lane) == (if done {
        handed_over(collected, before.queue_limit(lane))
    } else {
        collected
    })
}

/// A lane that took `first` and then `second` took both.
pub proof fn lemma_lane_receives_more<S: UdpSocket>(
    start: RxLanes<S>,
    before: RxLanes<S>,
    after: RxLanes<S>,
    lane: int,
    first: Seq<TileRxPacket<S>>,
    second: Seq<TileRxPacket<S>>,
)
    requires
        before.batch_limit() == start.batch_limit(),
        lane_received(start, before, lane, first, false),
        lane_took(before, after, lane, second),
        before.queued(lane).is_prefix_of(after.queued(lane)),
    ensures
        lane_received(start, after, lane, first + second, false),
{
    lemma_after_packets_joins(
        start.lane_state(lane),
        start.queue_limit(lane),
        start.batch_limit(),
        first,
        second,
    );
}

/// The lanes after a step that gave `packet` to lane `index`, if to any.
proof fn lemma_lane_takes_one<S: UdpSocket>(
    start: RxLanes<S>,
    before: RxLanes<S>,
    after: RxLanes<S>,
    lane: int,
    index: Option<int>,
    taken: Seq<TileRxPacket<S>>,
    packet: TileRxPacket<S>,
)
    requires
        0 <= lane < before.lanes(),
        before.batch_limit() == start.batch_limit(),
        lane_took(start, before, lane, taken),
        after.queue_limit(lane) == before.queue_limit(lane),
        if index == Some(lane) {
            after.lane_state(lane) == after_packet(
                before.lane_state(lane),
                before.queue_limit(lane),
                before.batch_limit(),
                packet,
            )
        } else {
            after.queued(lane) == before.queued(lane) && after.collecting(lane)
                == before.collecting(lane)
        },
    ensures
        lane_took(
            start,
            after,
            lane,
            if index == Some(lane) {
                taken.push(packet)
            } else {
                taken
            },
        ),
{
    if index == Some(lane) {
        assert(taken.push(packet).drop_last() =~= taken);
    } else {
        assert(after.lane_state(lane).batches =~= before.lane_state(lane).batches);
    }
}

impl<S: UdpSocket> RxLanes<S> {
    /// Collects one packet for a lane and hands over the batch when it is full.
    fn collect(&mut self, lane: usize, packet: TileRxPacket<S>, rx_queue_drops: &mut u64) -> (lost:
        Ghost<nat>)
        requires
            old(self).wf(),
            lane < old(self).lanes(),
        ensures
            final(self).wf(),
            final(self).same_elsewhere(old(self), lane as int),
            *final(rx_queue_drops) == bumped(*old(rx_queue_drops), lost@),
            final(self).stream(lane as int).len() + lost@ == old(self).stream(lane as int).len()
                + 1,
            lost@ == 0 ==> final(self).stream(lane as int) == old(self).stream(lane as int).push(
                packet,
            ),
            lost@ > 0 ==> final(self).lane_full(lane as int),
            final(self).lane_state(lane as int) == after_packet(
                old(self).lane_state(lane as int),
                old(self).queue_limit(lane as int),
                old(self).batch_limit(),
                packet,
            ),
            old(self).queued(lane as int).is_prefix_of(final(self).queued(lane as int)),
            old(self).lane_full(lane as int) ==> final(self).lane_full(lane as int),
    {
        let ghost collected = old(self).collecting(lane as int);
        self.filling[lane].push(packet);
        proof {
            lemma_bumped_adds(*rx_queue_drops, 0, 0);
            assert(self.collecting(lane as int) == collected.push(packet));
            assert(self.stream(lane as int) =~= old(self).stream(lane as int).push(packet));
            assert(self.lane_state(lane as int).batches =~= old(self).lane_state(
                lane as int,
            ).batches);
        }
        if self.filling[lane].len() >= self.batch_size {
            let ghost between = *self;
            let ghost kept = self.queued(lane as int).len() < self.queue_limit(lane as int);
            self.flush_batch(lane, rx_queue_drops);
            proof {
                assert forall|l: int| 0 <= l < self.lanes() && l != lane implies self.queued(l)
                    == old(self).queued(l) && self.collecting(l) == old(self).collecting(l) by {
                    assert(between.queued(l) == old(self).queued(l));
                    assert(between.collecting(l) == old(self).collecting(l));
                }
                assert forall|l: int| 0 <= l < self.lanes() implies self.queue_limit(l) == old(self).queue_limit(l) by {
                    assert(between.queue_limit(l) == old(self).queue_limit(l));
                }
            }
            return Ghost(
                if kept {
                    0
                } else {
                    collected.len() + 1
                },
            );
        }
        Ghost(0)
    }

    /// Classifies received packets and collects them for their lanes.
    #[verifier::rlimit(60)]
    pub fn dispatch<C: IngressClassifier<S::RecvMeta, UdpRxBuffer<S>>>(
        &mut self,
        items: Vec<UdpReceive<UdpRxBuffer<S>, S::RecvMeta>>,
        source: SocketIndex,
        classifier: &C,
        classifier_drops: &mut u64,
        rx_queue_drops: &mut u64,
    )
        requires
            old(self).wf(),
        ensures
            final(self).wf(),
            final(self).batch_limit() == old(self).batch_limit(),
            exists|decisions: Seq<IngressDecision>, overflow: nat|
                {
                    &&& #[trigger] dispatched(
                        *old(self),
                        *final(self),
                        items@,
                        decisions,
                        source,
                        overflow,
                    )
                    &&& forall|lane: int|
                        0 <= lane < old(self).lanes() ==> #[trigger] lane_took(
                            *old(self),
                            *final(self),
                            lane,
                            delivered_to::<S>(items@, decisions, source, lane),
                        )
                    &&& forall|i: int|
                        0 <= i < items@.len() ==> call_ensures(
                            C::classify,
                            (
                                classifier,
                                &items@[i].meta,
                                &items@[i].packet,
                                old(self).lanes() as usize,
                            ),
                            #[trigger] decisions[i],
                        )
                    &&& *final(classifier_drops) == bumped(
                        *old(classifier_drops),
                        drop_decisions(decisions),
                    )
                    &&& *final(rx_queue_drops) == bumped(
                        *old(rx_queue_drops),
                        stray_decisions(decisions, old(self).lanes()) + overflow,
                    )
                },
    {
        let ghost all = items@;
        let ghost lanes = self.lanes();
        let ghost mut decisions: Seq<IngressDecision> = Seq::empty();
        let ghost mut overflow: nat = 0;
        let count: usize = self.queues.len();
        let total: usize = items.len();
        let mut left = reversed(items);
        proof {
            lemma_bumped_adds(*classifier_drops, 0, 0);
            lemma_bumped_adds(*rx_queue_drops, 0, 0);
            assert forall|lane: int| 0 <= lane < lanes implies (#[trigger] self.stream(lane))
                == self.stream(lane) + delivered_to::<S>(
                all.take(0),
                decisions,
                source,
                lane,
            ) by {
                assert(self.stream(lane) + Seq::<TileRxPacket<S>>::empty() =~= self.stream(lane));
            }
        }
        while left.len() > 0
            invariant
                self.wf(),
                self.lanes() == lanes,
                lanes == old(self).lanes(),
                count == lanes,
                total == all.len(),
                self.batch_limit() == old(self).batch_limit(),
                left@.len() + decisions.len() == total,
                forall|i: int|
                    0 <= i < left@.len() ==> (#[trigger] left@[i]) == all[total - 1 - i],
                dispatched(
                    *old(self),
                    *self,
                    all.take(decisions.len() as int),
                    decisions,
                    source,
                    overflow,
                ),
                forall|lane: int|
                    0 <= lane < lanes ==> #[trigger] lane_took(
                        *old(self),
                        *self,
                        lane,
                        delivered_to::<S>(
                            all.take(decisions.len() as int),
                            decisions,
                            source,
                            lane,
                        ),
                    ),
                forall|i: int|
                    0 <= i < decisions.len() ==> call_ensures(
                        C::classify,
                        (classifier, &all[i].meta, &all[i].packet, lanes as usize),
                        #[trigger] decisions[i],
                    ),
                *classifier_drops == bumped(*old(classifier_drops), drop_decisions(decisions)),
                *rx_queue_drops == bumped(
                    *old(rx_queue_drops),
                    stray_decisions(decisions, lanes) + overflow,
                ),
            decreases left@.len(),
        {
            let ghost before = *self;
            let ghost seen = decisions.len() as int;
            let ghost earlier = decisions;
            let ghost lost_before = overflow;
            if let Some(item) = left.pop() {
                assert(item == all[seen]);
                let ghost kept = item;
                let decision = classifier.classify(&item.meta, &item.packet, count);
                proof {
                    decisions = decisions.push(decision);
                    assert(decisions.drop_last() =~= earlier);
                    assert(all.take(seen + 1).drop_last() =~= all.take(seen));
                    assert(all.take(seen + 1).last() == item);
                    lemma_bumped_adds(*old(classifier_drops), drop_decisions(earlier), 1);
                    lemma_bumped_adds(
                        *old(rx_queue_drops),
                        stray_decisions(earlier, lanes) + lost_before,
                        1,
                    );
                }
                match decision {
                    IngressDecision::Drop => {
                        bump(classifier_drops, 1);
                    },
                    IngressDecision::Deliver(index) => {
                        if index >= count {
                            bump(rx_queue_drops, 1);
                        } else {
                            let packet = TileRxPacket::new(item, source);
                            assert(packet == lane_packet::<S>(kept, source));
                            let lost = self.collect(index, packet, rx_queue_drops);
                            proof {
                                overflow = overflow + lost@;
                                lemma_bumped_adds(
                                    *old(rx_queue_drops),
                                    stray_decisions(earlier, lanes) + lost_before,
                                    lost@,
                                );
                                assert(self.streams() =~= before.streams().update(
                                    index as int,
                                    self.stream(index as int),
                                ));
                                lemma_stream_total_update(
                                    before.streams(),
                                    index as int,
                                    self.stream(index as int),
                                );
                            }
                        }
                    },
                }
                proof {
                    let index: Option<int> = match decision {
                        IngressDecision::Deliver(index) => Some(index as int),
                        IngressDecision::Drop => None,
                    };
                    assert forall|lane: int| 0 <= lane < lanes implies #[trigger] lane_took(
                        *old(self),
                        *self,
                        lane,
                        delivered_to::<S>(all.take(seen + 1), decisions, source, lane),
                    ) by {
                        let taken = delivered_to::<S>(all.take(seen), earlier, source, lane);
                        assert(lane_took(*old(self), before, lane, taken));
                        assert(self.queue_limit(lane) == before.queue_limit(lane));
                        lemma_lane_takes_one(
                            *old(self),
                            before,
                            *self,
                            lane,
                            index,
                            taken,
                            lane_packet::<S>(kept, source),
                        );
                    }
                    assert forall|lane: int| 0 <= lane < lanes implies old(self).queued(
                        lane,
                    ).is_prefix_of(#[trigger] self.queued(lane)) by {
                        assert(old(self).queued(lane).is_prefix_of(before.queued(lane)));
                        assert(before.queued(lane).is_prefix_of(self.queued(lane)));
                    }
                    assert forall|lane: int|
                        0 <= lane < lanes && before.lane_full(
                            lane,
                        ) implies #[trigger] self.lane_full(lane) by {
                        assert(self.queue_limit(lane) == before.queue_limit(lane));
                    }
                    assert forall|lane: int|
                        0 <= lane < lanes && (overflow == 0 || !self.lane_full(lane)) implies (
                    #[trigger] self.stream(lane)) == old(self).stream(lane) + delivered_to::<S>(
                        all.take(seen + 1),
                        decisions,
                        source,
                        lane,
                    ) by {
                        assert(!before.lane_full(lane) || lost_before == 0);
                        assert(before.stream(lane) == old(self).stream(lane) + delivered_to::<S>(
                            all.take(seen),
                            earlier,
                            source,
                            lane,
                        ));
                        if decision == IngressDecision::Deliver(lane as usize) {
                            assert(self.stream(lane) =~= old(self).stream(lane)
                                + delivered_to::<S>(all.take(seen + 1), decisions, source, lane));
                        } else {
                            assert(self.stream(lane) == before.stream(lane));
                        }
                    }
                }
            }
        }
        proof {
            assert(all.take(total as int) =~= all);
        }
    }

    /// Hands all collected packets to their lanes.
    pub fn flush_all(&mut self, rx_queue_drops: &mut u64)
        requires
            old(self).wf(),
        ensures
            final(self).wf(),
            final(self).lanes() == old(self).lanes(),
            final(self).batch_limit() == old(self).batch_limit(),
            forall|lane: int|
                0 <= lane < final(self).lanes() ==> (#[trigger] final(self).collecting(lane)).len()
                    == 0,
            forall|lane: int|
                0 <= lane < final(self).lanes() ==> {
                    &&& (#[trigger] final(self).lane_state(lane)) == handed_over(
                        old(self).lane_state(lane),
                        old(self).queue_limit(lane),
                    )
                    &&& final(self).queue_limit(lane) == old(self).queue_limit(lane)
                    &&& old(self).queued(lane).is_prefix_of(final(self).queued(lane))
                },
            exists|overflow: nat|
                {
                    &&& *final(rx_queue_drops) == #[trigger] bumped(*old(rx_queue_drops), overflow)
                    &&& stream_total(final(self).streams()) + overflow == stream_total(
                        old(self).streams(),
                    )
                    &&& forall|lane: int|
                        0 <= lane < final(self).lanes() && (overflow == 0 || !final(self).lane_full(
                            lane,
                        )) ==> (#[trigger] final(self).stream(lane)) == old(self).stream(lane)
                    &&& forall|lane: int|
                        0 <= lane < final(self).lanes() && old(self).lane_full(lane)
                            ==> #[trigger] final(self).lane_full(lane)
                },
    {
        let count: usize = self.queues.len();
        let ghost mut overflow: nat = 0;
        let mut lane: usize = 0;
        proof {
            lemma_bumped_adds(*rx_queue_drops, 0, 0);
        }
        while lane < count
            invariant
                lane <= count,
                count == self.lanes(),
                self.wf(),
                self.lanes() == old(self).lanes(),
                self.batch_limit() == old(self).batch_limit(),
                forall|l: int| 0 <= l < lane ==> (#[trigger] self.collecting(l)).len() == 0,
                forall|l: int|
                    0 <= l < self.lanes() ==> {
                        &&& (#[trigger] self.lane_state(l)) == (if l < lane {
                            handed_over(old(self).lane_state(l), old(self).queue_limit(l))
                        } else {
                            old(self).lane_state(l)
                        })
                        &&& self.queue_limit(l) == old(self).queue_limit(l)
                        &&& old(self).queued(l).is_prefix_of(self.queued(l))
                    },
                *rx_queue_drops == bumped(*old(rx_queue_drops), overflow),
                stream_total(self.streams()) + overflow == stream_total(old(self).streams()),
                forall|l: int|
                    0 <= l < self.lanes() && (overflow == 0 || !self.lane_full(l)) ==> (
                    #[trigger] self.stream(l)) == old(self).stream(l),
                forall|l: int|
                    0 <= l < self.lanes() && old(self).lane_full(l) ==> #[trigger] self.lane_full(
                        l,
                    ),
            decreases count - lane,
        {
            let ghost before = *self;
            let ghost at = lane as int;
            self.flush_batch(lane, rx_queue_drops);
            proof {
                let collected = before.collecting(at).len();
                let kept = collected == 0 || before.queued(at).len() < before.queue_limit(at);
                let lost: nat = if kept {
                    0
                } else {
                    collected
                };
                assert(self.streams() =~= before.streams().update(at, self.stream(at)));
                lemma_stream_total_update(before.streams(), at, self.stream(at));
                lemma_bumped_adds(*old(rx_queue_drops), overflow, lost);
                assert forall|l: int|
                    0 <= l < self.lanes() && before.lane_full(
                        l,
                    ) implies #[trigger] self.lane_full(l) by {
                    assert(self.queue_limit(l) == before.queue_limit(l));
                }
                assert forall|l: int|
                    0 <= l < self.lanes() && (overflow + lost == 0 || !self.lane_full(l)) implies (
                #[trigger] self.stream(l)) == old(self).stream(l) by {
                    assert(self.queue_limit(l) == before.queue_limit(l));
                    assert(before.stream(l) == old(self).stream(l));
                    if l != at {
                        assert(self.queued(l) == before.queued(l));
                    }
                }
                assert forall|l: int| 0 <= l < self.lanes() implies {
                    &&& (#[trigger] self.lane_state(l)) == (if l < lane + 1 {
                        handed_over(old(self).lane_state(l), old(self).queue_limit(l))
                    } else {
                        old(self).lane_state(l)
                    })
                    &&& self.queue_limit(l) == old(self).queue_limit(l)
                    &&& old(self).queued(l).is_prefix_of(self.queued(l))
                } by {
                    assert(before.lane_state(l) == before.lane_state(l));
                    assert(self.queue_limit(l) == before.queue_limit(l));
                    if l != at {
                        assert(self.queued(l) == before.queued(l));
                        assert(self.lane_state(l).batches =~= before.lane_state(l).batches);
                    } else {
                        assert(before.queued(l).is_prefix_of(self.queued(l)));
                    }
                }
                overflow = overflow + lost;
                assert forall|l: int| 0 <= l < lane + 1 implies (
                #[trigger] self.collecting(l)).len() == 0 by {
                    if l < lane {
                        assert(before.collecting(l).len() == 0);
                    }
                }
            }
            lane = lane + 1;
        }
    }
}

/// The packets of all batches are those of the batches one after the other.
pub proof fn law_batches_hold_their_packets<S: UdpSocket>(
    batches: Seq<TileRxBatch<S>>,
    batch: TileRxBatch<S>,
)
    ensures
        batch_packets(Seq::<TileRxBatch<S>>::empty()).len() == 0,
        batch_packets(batches.push(batch)) == batch_packets(batches) + batch@,
{
    assert(batches.push(batch).drop_last() =~= batches);
}

/// The total of some streams is the sum of their lengths.
pub proof fn law_totals_are_sums<P>(streams: Seq<Seq<P>>, stream: Seq<P>)
    ensures
        stream_total(Seq::<Seq<P>>::empty()) == 0,
        stream_total(streams.push(stream)) == stream_total(streams) + stream.len(),
{
    assert(streams.push(stream).drop_last() =~= streams);
}

/// One more received packet goes to the lane that the classifier named, behind what went
/// there before and as it came, and to no other lane. A packet that is to be dropped, or
/// that is for a lane that does not exist, counts once among those and goes nowhere.
pub proof fn law_packets_go_where_they_were_sent<S: UdpSocket>(
    items: Seq<UdpReceive<UdpRxBuffer<S>, S::RecvMeta>>,
    decisions: Seq<IngressDecision>,
    source: SocketIndex,
    lane: int,
    lanes: nat,
    item: UdpReceive<UdpRxBuffer<S>, S::RecvMeta>,
    decision: IngressDecision,
)
    requires
        items.len() == decisions.len(),
        0 <= lane < lanes <= usize::MAX,
    ensures
        ({
            let before = delivered_to::<S>(items, decisions, source, lane);
            let after = delivered_to::<S>(items.push(item), decisions.push(decision), source, lane);
            let dropped = drop_decisions(decisions);
            let stray = stray_decisions(decisions, lanes);
            let dropped_after = drop_decisions(decisions.push(decision));
            let stray_after = stray_decisions(decisions.push(decision), lanes);
            match decision {
                IngressDecision::Drop => {
                    &&& after == before
                    &&& dropped_after == dropped + 1
                    &&& stray_after == stray
                },
                IngressDecision::Deliver(chosen) => {
                    &&& dropped_after == dropped
                    &&& chosen >= lanes ==> stray_after == stray + 1 && after == before
                    &&& chosen < lanes ==> stray_after == stray
                    &&& chosen < lanes && chosen != lane ==> after == before
                    &&& chosen == lane ==> {
                        &&& after.len() == before.len() + 1
                        &&& after.drop_last() == before
                        &&& after.last().packet == item.packet
                        &&& after.last().meta == item.meta
                        &&& after.last().source_socket == source
                    }
                },
            }
        }),
        delivered_to::<S>(
            Seq::<UdpReceive<UdpRxBuffer<S>, S::RecvMeta>>::empty(),
            Seq::<IngressDecision>::empty(),
            source,
            lane,
        ).len() == 0,
        drop_decisions(Seq::<IngressDecision>::empty()) == 0,
        stray_decisions(Seq::<IngressDecision>::empty(), lanes) == 0,
{
    assert(items.push(item).drop_last() =~= items);
    assert(decisions.push(decision).drop_last() =~= decisions);
    let before = delivered_to::<S>(items, decisions, source, lane);
    assert(before.push(lane_packet::<S>(item, source)).drop_last() =~= before);
}

/// A packet that reaches a lane joins the batch that is being filled. A batch that is
/// full is handed over at once, whole, behind those that wait, where the queue has room,
/// and is lost where it has none. What waits is never touched.
pub proof fn law_full_batches_are_handed_over<S: UdpSocket>(
    state: LaneState<S>,
    limit: nat,
    batch_size: nat,
    packet: TileRxPacket<S>,
)
    requires
        state.filling.len() < batch_size,
    ensures
        ({
            let after = after_packet(state, limit, batch_size, packet);
            let filled = state.filling.push(packet);
            if filled.len() < batch_size {
                after.batches == state.batches && after.filling == filled
            } else {
                &&& after.filling.len() == 0
                &&& state.batches.len() < limit ==> after.batches == state.batches.push(filled)
                &&& state.batches.len() >= limit ==> after.batches == state.batches
            }
        }),
{
}

/// As long as the queue of a lane has room for all batches that the packets make, none of
/// them is lost: they arrive in order, in batches of exactly the batch size, and what is
/// less than a batch waits to be handed over.
pub proof fn law_lanes_with_room_lose_nothing<S: UdpSocket>(
    state: LaneState<S>,
    limit: nat,
    batch_size: nat,
    packets: Seq<TileRxPacket<S>>,
)
    requires
        state.filling.len() < batch_size,
        state.batches.len() * batch_size + state.filling.len() + packets.len() <= limit * batch_size,
    ensures
        ({
            let after = after_packets(state, limit, batch_size, packets);
            &&& after.filling.len() < batch_size
            &&& after.batches.len() >= state.batches.len()
            &&& after.batches.len() * batch_size + after.filling.len() == state.batches.len()
                * batch_size + state.filling.len() + packets.len()
            &&& forall|i: int|
                0 <= i < state.batches.len() ==> #[trigger] after.batches[i] == state.batches[i]
            &&& forall|i: int|
                state.batches.len() <= i < after.batches.len() ==> (
                #[trigger] after.batches[i]).len() == batch_size
            &&& after.batches.skip(state.batches.len() as int).flatten_alt() + after.filling
                == state.filling + packets
        }),
    decreases packets.len(),
{
    if packets.len() == 0 {
        let after = after_packets(state, limit, batch_size, packets);
        assert(after == state);
        assert(after.batches.skip(state.batches.len() as int) =~= Seq::empty());
        assert(after.batches.skip(state.batches.len() as int).flatten_alt() + after.filling
            =~= state.filling + packets);
    } else {
        let earlier = packets.drop_last();
        law_lanes_with_room_lose_nothing(state, limit, batch_size, earlier);
        let middle = after_packets(state, limit, batch_size, earlier);
        let after = after_packets(state, limit, batch_size, packets);
        assert(after == after_packet(middle, limit, batch_size, packets.last()));
        law_full_batches_are_handed_over(middle, limit, batch_size, packets.last());
        assert(middle.batches.len() < limit) by (nonlinear_arith)
            requires
                middle.batches.len() * batch_size < limit * batch_size,
                batch_size > 0,
        ;
        let filled = middle.filling.push(packets.last());
        let kept = middle.batches.skip(state.batches.len() as int);
        assert(state.filling + packets =~= (state.filling + earlier).push(packets.last()));
        if filled.len() < batch_size {
            assert(kept.flatten_alt() + filled =~= (kept.flatten_alt() + middle.filling).push(
                packets.last(),
            ));
        } else {
            assert((middle.batches.len() + 1) * batch_size == middle.batches.len() * batch_size
                + batch_size) by (nonlinear_arith);
            let more = after.batches.skip(state.batches.len() as int);
            assert(more =~= kept.push(filled));
            assert(more.drop_last() =~= kept);
            assert(more.flatten_alt() =~= kept.flatten_alt() + filled);
            assert(more.flatten_alt() + after.filling =~= (kept.flatten_alt()
                + middle.filling).push(packets.last()));
        }
    }
}

/// At the end of a pass a batch that is not full is handed over too, unless the queue is
/// full, which loses it.
pub proof fn law_started_batches_are_handed_over<S: UdpSocket>(state: LaneState<S>, limit: nat)
    ensures
        ({
            let after = handed_over(state, limit);
            &&& after.filling.len() == 0
            &&& state.filling.len() == 0 ==> after.batches == state.batches
            &&& state.filling.len() > 0 && state.batches.len() < limit ==> after.batches
                == state.batches.push(state.filling)
            &&& state.batches.len() >= limit ==> after.batches == state.batches
        }),
{
}

/// A lane gets its batches in the order in which they were queued.
pub proof fn law_batches_leave_in_order<S: UdpSocket>(lane: usize, r: Option<TileRxBatch<S>>)
    ensures
        forall|lanes: &mut RxLanes<S>| #[trigger]
            call_ensures(RxLanes::<S>::pop_batch, (lanes, lane), r) ==> {
                let before = lanes.queued(lane as int);
                let after = final(lanes).queued(lane as int);
                &&& r is None <==> before.len() == 0
                &&& r matches Some(batch) ==> {
                    &&& batch == before[0]
                    &&& after.len() == before.len() - 1
                    &&& forall|i: int| 0 <= i < after.len() ==> #[trigger] after[i] == before[i + 1]
                }
                &&& r is None ==> after == before
                &&& forall|other: int|
                    0 <= other < lanes.lanes() && other != lane ==> (
                    #[trigger] final(lanes).queued(other)) == lanes.queued(other)
            },
{
}

/// Handing a lane's batch over loses packets only where the queue is full, and then
/// counts each of them.
pub proof fn law_lost_batches_are_counted<S: UdpSocket>(lane: usize)
    ensures
        forall|lanes: &mut RxLanes<S>, drops: &mut u64| #[trigger]
            call_ensures(RxLanes::<S>::flush_batch, (lanes, lane, drops), ()) ==> {
                let collected = lanes.collecting(lane as int);
                let room = lanes.queued(lane as int).len() < lanes.queue_limit(lane as int);
                &&& final(lanes).collecting(lane as int).len() == 0
                &&& room || collected.len() == 0 ==> *final(drops) == *drops
                &&& room && collected.len() > 0 ==> final(lanes).queued(lane as int).last()@
                    == collected
                &&& !room && *drops + collected.len() <= u64::MAX ==> *final(drops) == *drops
                    + collected.len()
            },
{
}

/// Empty batches are kept for reuse, as far as there is room for them, and the one that has
/// been kept longest is used first. A batch that is given out is empty.
pub proof fn law_spare_batches_are_reused<S: UdpSocket>(batch: TileRxBatch<S>)
    ensures
        forall|lanes: &mut RxLanes<S>, r: TileRxBatch<S>| #[trigger]
            call_ensures(RxLanes::<S>::alloc_batch, (lanes,), r) ==> {
                let before = lanes.spare_batches();
                let after = final(lanes).spare_batches();
                &&& r@.len() == 0
                &&& before.len() > 0 ==> before == seq![r] + after
                &&& before.len() == 0 ==> after.len() == 0
            },
        forall|lanes: &mut RxLanes<S>| #[trigger]
            call_ensures(RxLanes::<S>::recycle_batch, (lanes, batch), ()) ==> {
                let before = lanes.spare_batches();
                let after = final(lanes).spare_batches();
                &&& before.len() < lanes.spare_limit() ==> after.len() == before.len() + 1
                    && after.drop_last() == before && after.last()@.len() == 0
                &&& before.len() >= lanes.spare_limit() ==> after == before
            },
{
    assert forall|lanes: &mut RxLanes<S>, r: TileRxBatch<S>| #[trigger]
        call_ensures(RxLanes::<S>::alloc_batch, (lanes,), r) implies {
        let before = lanes.spare_batches();
        let after = final(lanes).spare_batches();
        &&& r@.len() == 0
        &&& before.len() > 0 ==> before == seq![r] + after
        &&& before.len() == 0 ==> after.len() == 0
    } by {
        let before = lanes.spare_batches();
        if before.len() > 0 {
            assert(before =~= seq![before[0]] + before.skip(1));
        }
    }
    assert forall|lanes: &mut RxLanes<S>| #[trigger]
        call_ensures(RxLanes::<S>::recycle_batch, (lanes, batch), ()) implies {
        let before = lanes.spare_batches();
        let after = final(lanes).spare_batches();
        &&& before.len() < lanes.spare_limit() ==> after.len() == before.len() + 1
            && after.drop_last() == before && after.last()@.len() == 0
        &&& before.len() >= lanes.spare_limit() ==> after == before
    } by {
        let before = lanes.spare_batches();
        let kept = choose|kept: TileRxBatch<S>|
            {
                &&& #[trigger] kept@.len() == 0
                &&& final(lanes).spare_batches() == pushed(before, lanes.spare_limit(), kept).1
            };
        assert(before.push(kept).drop_last() =~= before);
    }
}

} // verus!
