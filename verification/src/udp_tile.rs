//! A network tile: its lanes, its statistics and one pass of its worker.

use vstd::prelude::*;

use crate::batch::{RecvBatch, SendError};
use crate::buffer::{PacketBuffer, PacketBufferMut};
use crate::error::Error;
use crate::ring::{popped, smaller, SpscRing};
use crate::tile::{
    combined_affinity, validate_socket_affinity, IngressClassifier, IngressDecision, SocketIndex,
    TileAffinity, TileConfig, TileError, TileRxBatch, TileRxPacket, TileStats, TileTxBuffer,
    TileTxMeta, TileTxPacket,
};
use crate::sys::QueueAffinity;
use crate::tile_runtime::{
    any_completed, backlogs, count_sum, declined, drain_lane_work, drain_socket_completions,
    flush_outcome, flush_pending_tx, flushed, lane_work_ok, law_flush_leaves_what_was_refused,
    lemma_list_total_flushed, lemma_turn_stays, lemma_work_total_update, list_total, reclaim_stopped, refill_lane,
    refill_target, sockets_flushed, sockets_reclaimed, top_up_failed, topped_up, turns_fit,
    tx_buffer_ok, work_moved, work_total, PendingTx,
};
use crate::tile_rx::{
    delivered_to, dispatched, drop_decisions, handed_over, lane_received, lane_took,
    lemma_lane_receives_more, stray_decisions, stream_total, RxLanes,
};
use crate::tile_tx::{
    bumped, lane_stuck, lemma_bumped_adds, lemma_lane_stays_stuck, tx_work_capacity,
    tx_work_capacity_spec, work_list, TileTxBufferWork, TxAdmission, TxWork,
};
use crate::udp::{
    law_pieces_cover_the_whole, piece_count, UdpReceive, UdpRxBuffer, UdpSocket, UdpTxBuffer,
};

verus! {

/// Largest number of sockets that [`SocketIndex`] can name.
pub const MAX_TILE_SOCKETS: usize = 65536;

/// Packets received from sockets, before they are classified.
pub type TileRecvBatch<S> = RecvBatch<UdpReceive<UdpRxBuffer<S>, <S as UdpSocket>::RecvMeta>>;

/// The number of batches in a lane's RX queue: enough for the packet capacity.
pub open spec fn rx_queue_capacity_spec(config: TileConfig) -> int {
    let batches = piece_count(config.queue_capacity as int, config.batch_size as int);
    if batches < 1 {
        1
    } else {
        batches
    }
}

/// Returns the number of batches in a lane's RX queue.
pub fn rx_queue_capacity(config: TileConfig) -> (r: usize)
    requires
        config.batch_size > 0,
    ensures
        r == rx_queue_capacity_spec(config),
        r >= 1,
        r * config.batch_size >= config.queue_capacity,
        r == 1 || (r - 1) * config.batch_size < config.queue_capacity,
{
    proof {
        law_pieces_cover_the_whole(config.queue_capacity as int, config.batch_size as int);
        crate::udp::lemma_piece_count(config.queue_capacity as int, config.batch_size as int);
    }
    let whole: usize = config.queue_capacity / config.batch_size;
    let rest: usize = config.queue_capacity % config.batch_size;
    if whole == 0 {
        proof {
            let count = piece_count(config.queue_capacity as int, config.batch_size as int);
            assert(count * config.batch_size <= config.batch_size) by (nonlinear_arith)
                requires
                    count <= 1,
                    config.batch_size >= 0,
            ;
        }
        1
    } else if rest > 0 {
        proof {
            assert(whole < usize::MAX) by {
                if config.batch_size == 1 {
                    assert(rest == 0);
                } else {
                    vstd::arithmetic::div_mod::lemma_div_decreases(
                        config.queue_capacity as int,
                        config.batch_size as int,
                    );
                }
            }
        }
        whole + 1
    } else {
        whole
    }
}

/// The tile can be made: every size is at least 1 and its queues can be allocated.
pub open spec fn tile_config_ok(lane_count: usize, config: TileConfig) -> bool {
    &&& lane_count > 0
    &&& config.batch_size > 0
    &&& config.tx_buffer_queue_capacity > 0
    &&& config.tx_buffer_refill_batch > 0
    &&& (rx_queue_capacity_spec(config) * lane_count + lane_count) * 16 <= isize::MAX
}

/// Returns whether a tile can be made.
#[must_use]
pub fn tile_config_fits(lane_count: usize, config: TileConfig) -> (r: bool)
    ensures
        r == tile_config_ok(lane_count, config),
{
    if lane_count == 0 || config.batch_size == 0 || config.tx_buffer_queue_capacity == 0
        || config.tx_buffer_refill_batch == 0 {
        return false;
    }
    let limit: usize = isize::MAX as usize / 16;
    let capacity: usize = rx_queue_capacity(config);
    proof {
        assert((capacity * lane_count + lane_count) == (capacity + 1) * lane_count)
            by (nonlinear_arith);
    }
    if capacity >= limit {
        proof {
            assert((capacity + 1) * lane_count >= capacity + 1) by (nonlinear_arith)
                requires
                    lane_count >= 1,
            ;
        }
        return false;
    }
    let per_lane: usize = capacity + 1;
    proof {
        vstd::arithmetic::div_mod::lemma_fundamental_div_mod(limit as int, per_lane as int);
        if lane_count <= limit / per_lane {
            assert(per_lane * lane_count <= per_lane * (limit / per_lane)) by (nonlinear_arith)
                requires
                    lane_count <= limit / per_lane,
            ;
        } else {
            assert(per_lane * lane_count >= per_lane * (limit / per_lane + 1)) by (nonlinear_arith)
                requires
                    lane_count >= limit / per_lane + 1,
            ;
            assert(per_lane * (limit / per_lane + 1) == per_lane * (limit / per_lane) + per_lane)
                by (nonlinear_arith);
        }
        assert(per_lane * lane_count == lane_count * per_lane) by (nonlinear_arith);
    }
    lane_count <= limit / per_lane
}

/// The packets that the decisions deliver to `lane`, socket by socket.
pub open spec fn all_delivered_to<S: UdpSocket>(
    batches: Seq<Seq<UdpReceive<UdpRxBuffer<S>, S::RecvMeta>>>,
    decisions: Seq<Seq<IngressDecision>>,
    sources: Seq<SocketIndex>,
    lane: int,
) -> Seq<TileRxPacket<S>>
    decreases batches.len(),
{
    if batches.len() == 0 {
        Seq::empty()
    } else {
        all_delivered_to::<S>(
            batches.drop_last(),
            decisions.drop_last(),
            sources.drop_last(),
            lane,
        ) + delivered_to::<S>(batches.last(), decisions.last(), sources.last(), lane)
    }
}

/// The packets that the classifier dropped.
pub open spec fn all_drop_decisions(decisions: Seq<Seq<IngressDecision>>) -> nat
    decreases decisions.len(),
{
    if decisions.len() == 0 {
        0
    } else {
        all_drop_decisions(decisions.drop_last()) + drop_decisions(decisions.last())
    }
}

/// The packets that the classifier sent to lanes that do not exist.
pub open spec fn all_stray_decisions(decisions: Seq<Seq<IngressDecision>>, lanes: nat) -> nat
    decreases decisions.len(),
{
    if decisions.len() == 0 {
        0
    } else {
        all_stray_decisions(decisions.drop_last(), lanes) + stray_decisions(decisions.last(), lanes)
    }
}

/// The sockets delivered `batches`, one each in order, and the classifier made
/// `decisions` on them.
pub open spec fn batches_received<S: UdpSocket, C: IngressClassifier<S::RecvMeta, UdpRxBuffer<S>>>(
    before: Seq<S>,
    after: Seq<S>,
    classifier: C,
    lanes: nat,
    batches: Seq<Seq<UdpReceive<UdpRxBuffer<S>, S::RecvMeta>>>,
    decisions: Seq<Seq<IngressDecision>>,
    sources: Seq<SocketIndex>,
) -> bool {
    &&& batches.len() <= before.len()
    &&& decisions.len() == batches.len()
    &&& sources.len() == batches.len()
    &&& forall|i: int|
        0 <= i < batches.len() ==> S::may_recv(
            before[i],
            after[i],
            #[trigger] batches[i],
            Ok::<usize, Error>(batches[i].len() as usize),
        )
    &&& forall|i: int| 0 <= i < batches.len() ==> (#[trigger] batches[i]).len() <= usize::MAX
    &&& forall|i: int| 0 <= i < sources.len() ==> (#[trigger] sources[i]).value() == i
    &&& forall|i: int|
        0 <= i < decisions.len() ==> (#[trigger] decisions[i]).len() == batches[i].len()
    &&& forall|i: int, k: int|
        0 <= i < batches.len() && 0 <= k < batches[i].len() ==> call_ensures(
            C::classify,
            (&classifier, &batches[i][k].meta, &batches[i][k].packet, lanes as usize),
            #[trigger] decisions[i][k],
        )
}

/// What was received is accounted for: on its way to the lanes, dropped by the
/// classifier, or lost for want of a queue (`overflow` packets to full queues). The
/// packets of a lane whose queue is not full are the earlier ones followed by all
/// those delivered to it, in order. Batch by batch, every lane holds what it held and
/// what was delivered to it since, as far as its queue went. When the pass is `done`,
/// nothing is left to be handed over.
pub open spec fn received_accounted<S: UdpSocket>(
    before: RxLanes<S>,
    after: RxLanes<S>,
    stats_before: TileStats,
    stats_after: TileStats,
    batches: Seq<Seq<UdpReceive<UdpRxBuffer<S>, S::RecvMeta>>>,
    decisions: Seq<Seq<IngressDecision>>,
    sources: Seq<SocketIndex>,
    overflow: nat,
    done: bool,
) -> bool {
    let classified = all_drop_decisions(decisions);
    let lost = all_stray_decisions(decisions, before.lanes()) + overflow;
    &&& after.lanes() == before.lanes()
    &&& stream_total(after.streams()) + classified + lost == stream_total(before.streams())
        + stream_total(batches)
    &&& stats_after.classifier_drops == bumped(stats_before.classifier_drops, classified)
    &&& stats_after.rx_queue_drops == bumped(stats_before.rx_queue_drops, lost)
    &&& forall|lane: int|
        0 <= lane < after.lanes() && (overflow == 0 || !after.lane_full(lane)) ==> (
        #[trigger] after.stream(lane)) == before.stream(lane) + all_delivered_to::<S>(
            batches,
            decisions,
            sources,
            lane,
        )
    &&& after.batch_limit() == before.batch_limit()
    &&& forall|lane: int|
        0 <= lane < after.lanes() ==> #[trigger] lane_received(
            before,
            after,
            lane,
            all_delivered_to::<S>(batches, decisions, sources, lane),
            done,
        )
}

/// Receiving stopped at the socket `failed` with `error`. The sockets behind it are as
/// they were.
pub open spec fn receive_stopped<S: UdpSocket>(
    before: Seq<S>,
    after: Seq<S>,
    failed: int,
    error: Error,
) -> bool {
    &&& 0 <= failed < before.len()
    &&& exists|received: Seq<UdpReceive<UdpRxBuffer<S>, S::RecvMeta>>| #[trigger]
        S::may_recv(before[failed], after[failed], received, Err::<usize, Error>(error))
    &&& forall|i: int| failed < i < before.len() ==> #[trigger] after[i] == before[i]
}

/// Receives from every socket and collects the classified packets for the lanes.
///
/// Every received packet is on its way to a lane afterwards, or counted in one
/// of the drop counters.
pub fn recv_from_sockets<S: UdpSocket, C: IngressClassifier<S::RecvMeta, UdpRxBuffer<S>>>(
    sockets: &mut [S],
    rx: &mut TileRecvBatch<S>,
    lanes: &mut RxLanes<S>,
    classifier: &C,
    stats: &mut TileStats,
) -> (r: Result<bool, TileError>)
    requires
        old(lanes).wf(),
        old(rx).wf(),
        old(sockets)@.len() <= MAX_TILE_SOCKETS,
    ensures
        final(lanes).wf(),
        final(rx).wf(),
        final(lanes).lanes() == old(lanes).lanes(),
        final(lanes).batch_limit() == old(lanes).batch_limit(),
        final(sockets)@.len() == old(sockets)@.len(),
        final(stats).tx_drops == old(stats).tx_drops,
        final(stats).tx_packets == old(stats).tx_packets,
        exists|
            batches: Seq<Seq<UdpReceive<UdpRxBuffer<S>, S::RecvMeta>>>,
            decisions: Seq<Seq<IngressDecision>>,
            sources: Seq<SocketIndex>,
            overflow: nat,
        |
            {
                &&& #[trigger] received_accounted(
                    *old(lanes),
                    *final(lanes),
                    *old(stats),
                    *final(stats),
                    batches,
                    decisions,
                    sources,
                    overflow,
                    r is Ok,
                )
                &&& batches_received(
                    old(sockets)@,
                    final(sockets)@,
                    *classifier,
                    old(lanes).lanes(),
                    batches,
                    decisions,
                    sources,
                )
                &&& match r {
                    Ok(progressed) => batches.len() == old(sockets)@.len() && progressed == (
                    stream_total(batches) > 0),
                    Err(TileError::Socket(error)) => receive_stopped(
                        old(sockets)@,
                        final(sockets)@,
                        batches.len() as int,
                        error,
                    ),
                    Err(_) => false,
                }
            },
        r is Ok ==> forall|lane: int|
            0 <= lane < final(lanes).lanes() ==> (#[trigger] final(lanes).collecting(lane)).len()
                == 0,
{
    let ghost mut batches: Seq<Seq<UdpReceive<UdpRxBuffer<S>, S::RecvMeta>>> = Seq::empty();
    let ghost mut decisions: Seq<Seq<IngressDecision>> = Seq::empty();
    let ghost mut sources: Seq<SocketIndex> = Seq::empty();
    let ghost mut overflow: nat = 0;
    let mut progressed = false;
    proof {
        lemma_bumped_adds(stats.classifier_drops, 0, 0);
        lemma_bumped_adds(stats.rx_queue_drops, 0, 0);
        assert forall|lane: int| 0 <= lane < lanes.lanes() implies (#[trigger] lanes.stream(lane))
            == lanes.stream(lane) + all_delivered_to::<S>(
            batches,
            decisions,
            sources,
            lane,
        ) by {
            assert(lanes.stream(lane) + Seq::<TileRxPacket<S>>::empty() =~= lanes.stream(lane));
        }
        assert forall|lane: int|
            0 <= lane < lanes.lanes() implies #[trigger] lane_received(
            *old(lanes),
            *lanes,
            lane,
            all_delivered_to::<S>(batches, decisions, sources, lane),
            false,
        ) by {}
    }
    let mut index: usize = 0;
    while index < sockets.len()
        invariant
            index <= sockets@.len(),
            sockets@.len() == old(sockets)@.len(),
            sockets@.len() <= MAX_TILE_SOCKETS,
            lanes.wf(),
            rx.wf(),
            lanes.lanes() == old(lanes).lanes(),
            lanes.batch_limit() == old(lanes).batch_limit(),
            stats.tx_drops == old(stats).tx_drops,
            stats.tx_packets == old(stats).tx_packets,
            received_accounted(
                *old(lanes),
                *lanes,
                *old(stats),
                *stats,
                batches,
                decisions,
                sources,
                overflow,
                false,
            ),
            batches.len() == index,
            batches_received(
                old(sockets)@,
                sockets@,
                *classifier,
                old(lanes).lanes(),
                batches,
                decisions,
                sources,
            ),
            forall|i: int| index <= i < sockets@.len() ==> sockets@[i] == old(sockets)@[i],
            progressed == (stream_total(batches) > 0),
        decreases sockets@.len() - index,
    {
        let ghost asked = sockets@;
        let ghost before = *lanes;
        let ghost counted = *stats;
        rx.clear();
        let outcome = sockets[index].recv(rx);
        match outcome {
            Err(error) => {
                proof {
                    assert forall|i: int| 0 <= i < batches.len() implies S::may_recv(
                        old(sockets)@[i],
                        sockets@[i],
                        #[trigger] batches[i],
                        Ok::<usize, Error>(batches[i].len() as usize),
                    ) by {
                        assert(sockets@[i] == asked[i]);
                    }
                    assert(rx@.skip(0) =~= rx@);
                    assert(S::may_recv(
                        old(sockets)@[index as int],
                        sockets@[index as int],
                        rx@,
                        Err::<usize, Error>(error),
                    ));
                    assert forall|i: int| index < i < sockets@.len() implies #[trigger] sockets@[i]
                        == old(sockets)@[i] by {
                        assert(sockets@[i] == asked[i]);
                    }
                    assert(receive_stopped(old(sockets)@, sockets@, index as int, error));
                    let result = Err::<bool, TileError>(TileError::Socket(error));
                    assert(received_accounted(
                        *old(lanes),
                        *lanes,
                        *old(stats),
                        *stats,
                        batches,
                        decisions,
                        sources,
                        overflow,
                        result is Ok,
                    ));
                }
                return Err(TileError::Socket(error));
            },
            Ok(count) => {
                let source = SocketIndex::new(index as u16);
                let items = rx.drain();
                if count > 0 {
                    progressed = true;
                }
                let ghost all = items@;
                proof {
                    assert(items.len() == all.len());
                    assert(all.skip(0) =~= all);
                    assert(S::may_recv(
                        asked[index as int],
                        sockets@[index as int],
                        all,
                        Ok::<usize, Error>(all.len() as usize),
                    ));
                }
                lanes.dispatch(
                    items,
                    source,
                    classifier,
                    &mut stats.classifier_drops,
                    &mut stats.rx_queue_drops,
                );
                proof {
                    let (chosen, lost) = choose|chosen: Seq<IngressDecision>, lost: nat|
                        {
                            &&& #[trigger] dispatched(before, *lanes, all, chosen, source, lost)
                            &&& forall|lane: int|
                                0 <= lane < before.lanes() ==> #[trigger] lane_took(
                                    before,
                                    *lanes,
                                    lane,
                                    delivered_to::<S>(all, chosen, source, lane),
                                )
                            &&& forall|i: int|
                                0 <= i < all.len() ==> call_ensures(
                                    C::classify,
                                    (
                                        classifier,
                                        &all[i].meta,
                                        &all[i].packet,
                                        before.lanes() as usize,
                                    ),
                                    #[trigger] chosen[i],
                                )
                            &&& stats.classifier_drops == bumped(
                                counted.classifier_drops,
                                drop_decisions(chosen),
                            )
                            &&& stats.rx_queue_drops == bumped(
                                counted.rx_queue_drops,
                                stray_decisions(chosen, before.lanes()) + lost,
                            )
                        };
                    lemma_bumped_adds(
                        old(stats).classifier_drops,
                        all_drop_decisions(decisions),
                        drop_decisions(chosen),
                    );
                    lemma_bumped_adds(
                        old(stats).rx_queue_drops,
                        all_stray_decisions(decisions, before.lanes()) + overflow,
                        stray_decisions(chosen, before.lanes()) + lost,
                    );
                    let earlier = batches;
                    let decided = decisions;
                    let named = sources;
                    batches = batches.push(all);
                    decisions = decisions.push(chosen);
                    sources = sources.push(source);
                    assert(batches.drop_last() =~= earlier);
                    assert(decisions.drop_last() =~= decided);
                    assert(sources.drop_last() =~= named);
                    assert forall|lane: int|
                        0 <= lane < lanes.lanes() && (overflow + lost == 0 || !lanes.lane_full(
                            lane,
                        )) implies (#[trigger] lanes.stream(lane)) == old(lanes).stream(lane)
                        + all_delivered_to::<S>(batches, decisions, sources, lane) by {
                        assert(overflow == 0 || !before.lane_full(lane)) by {
                            if before.lane_full(lane) {
                                assert(lanes.lane_full(lane));
                            }
                        }
                        assert(before.stream(lane) == old(lanes).stream(lane)
                            + all_delivered_to::<S>(earlier, decided, named, lane));
                        assert(lanes.stream(lane) =~= old(lanes).stream(lane)
                            + all_delivered_to::<S>(batches, decisions, sources, lane));
                    }
                    assert forall|lane: int|
                        0 <= lane < lanes.lanes() implies #[trigger] lane_received(
                        *old(lanes),
                        *lanes,
                        lane,
                        all_delivered_to::<S>(batches, decisions, sources, lane),
                        false,
                    ) by {
                        let taken = delivered_to::<S>(all, chosen, source, lane);
                        assert(lane_received(
                            *old(lanes),
                            before,
                            lane,
                            all_delivered_to::<S>(earlier, decided, named, lane),
                            false,
                        ));
                        assert(lane_took(before, *lanes, lane, taken));
                        assert(before.queued(lane).is_prefix_of(lanes.queued(lane)));
                        lemma_lane_receives_more(
                            *old(lanes),
                            before,
                            *lanes,
                            lane,
                            all_delivered_to::<S>(earlier, decided, named, lane),
                            taken,
                        );
                    }
                    overflow = overflow + lost;
                    assert forall|i: int| 0 <= i < batches.len() implies S::may_recv(
                        old(sockets)@[i],
                        sockets@[i],
                        #[trigger] batches[i],
                        Ok::<usize, Error>(batches[i].len() as usize),
                    ) by {
                        if i < index {
                            assert(sockets@[i] == asked[i]);
                            assert(batches[i] == earlier[i]);
                        }
                    }
                    assert forall|i: int| 0 <= i < sources.len() implies (
                    #[trigger] sources[i]).value() == i by {
                        if i < index {
                            assert(sources[i] == named[i]);
                        }
                    }
                    assert forall|i: int| 0 <= i < decisions.len() implies (
                    #[trigger] decisions[i]).len() == batches[i].len() by {
                        if i < index {
                            assert(decisions[i] == decided[i]);
                            assert(batches[i] == earlier[i]);
                        }
                    }
                    assert forall|i: int, k: int|
                        0 <= i < batches.len() && 0 <= k < batches[i].len() implies call_ensures(
                        C::classify,
                        (
                            classifier,
                            &batches[i][k].meta,
                            &batches[i][k].packet,
                            old(lanes).lanes() as usize,
                        ),
                        #[trigger] decisions[i][k],
                    ) by {
                        if i < index {
                            assert(batches[i] == earlier[i]);
                            assert(decisions[i][k] == decided[i][k]);
                        } else {
                            assert(decisions[i][k] == chosen[k]);
                        }
                    }
                }
            },
        }
        index = index + 1;
    }
    let ghost before = *lanes;
    let ghost counted = *stats;
    lanes.flush_all(&mut stats.rx_queue_drops);
    proof {
        let lost = choose|lost: nat|
            {
                &&& stats.rx_queue_drops == #[trigger] bumped(counted.rx_queue_drops, lost)
                &&& stream_total(lanes.streams()) + lost == stream_total(before.streams())
                &&& forall|lane: int|
                    0 <= lane < lanes.lanes() && (lost == 0 || !lanes.lane_full(lane)) ==> (
                    #[trigger] lanes.stream(lane)) == before.stream(lane)
                &&& forall|lane: int|
                    0 <= lane < lanes.lanes() && before.lane_full(
                        lane,
                    ) ==> #[trigger] lanes.lane_full(lane)
            };
        lemma_bumped_adds(
            old(stats).rx_queue_drops,
            all_stray_decisions(decisions, before.lanes()) + overflow,
            lost,
        );
        assert forall|lane: int|
            0 <= lane < lanes.lanes() && (overflow + lost == 0 || !lanes.lane_full(lane)) implies (
        #[trigger] lanes.stream(lane)) == old(lanes).stream(lane) + all_delivered_to::<S>(
            batches,
            decisions,
            sources,
            lane,
        ) by {
            if before.lane_full(lane) {
                assert(lanes.lane_full(lane));
            }
            assert(before.stream(lane) == old(lanes).stream(lane) + all_delivered_to::<S>(
                batches,
                decisions,
                sources,
                lane,
            ));
        }
        assert forall|lane: int|
            0 <= lane < lanes.lanes() implies #[trigger] lane_received(
            *old(lanes),
            *lanes,
            lane,
            all_delivered_to::<S>(batches, decisions, sources, lane),
            true,
        ) by {
            assert(lane_received(
                *old(lanes),
                before,
                lane,
                all_delivered_to::<S>(batches, decisions, sources, lane),
                false,
            ));
            assert(lanes.lane_state(lane) == handed_over(
                before.lane_state(lane),
                before.queue_limit(lane),
            ));
            assert(before.queued(lane).is_prefix_of(lanes.queued(lane)));
        }
        overflow = overflow + lost;
        let result = Ok::<bool, TileError>(progressed);
        assert(received_accounted(
            *old(lanes),
            *lanes,
            *old(stats),
            *stats,
            batches,
            decisions,
            sources,
            overflow,
            result is Ok,
        ));
    }
    Ok(progressed)
}

/// Mutable set of UDP sockets driven by one tile thread.
pub trait UdpSocketSet: Sized {
    /// Concrete socket type in this set.
    type Socket: UdpSocket;

    /// The sockets in stable tile order.
    closed spec fn sockets(&self) -> Seq<Self::Socket> {
        arbitrary()
    }

    /// Runs set-local maintenance before each socket pass.
    ///
    /// Returns `true` when the maintenance work made observable progress.
    fn poll_maintenance(&mut self) -> (r: bool)
        ensures
            final(self).sockets().len() == old(self).sockets().len(),
        default_ensures
            !r,
            *final(self) == *old(self),
    {
        false
    }

    /// Returns all sockets in stable tile order.
    fn sockets_mut(&mut self) -> (r: &mut [Self::Socket])
        ensures
            r@ == old(self).sockets(),
            final(r)@.len() == r@.len() ==> final(self).sockets() == final(r)@,
    ;

    /// Returns whether a transmit buffer from any member can be submitted
    /// through any other member's TX ring.
    fn can_transmit_from_any_socket(&self) -> (r: bool)
        default_ensures
            !r,
    {
        false
    }
}

impl<S: UdpSocket> UdpSocketSet for Vec<S> {
    type Socket = S;

    open spec fn sockets(&self) -> Seq<S> {
        self@
    }

    fn sockets_mut(&mut self) -> (r: &mut [S]) {
        self.as_mut_slice()
    }
}

/// Packets that are on their way to the network are still inside the tile, or
/// among the `sent` ones, or among the `dropped` ones.
pub open spec fn transmit_accounted<
    S: UdpSocket,
    C: IngressClassifier<S::RecvMeta, UdpRxBuffer<S>>,
>(before: UdpTile<S, C>, after: UdpTile<S, C>, sent: nat, dropped: nat) -> bool {
    &&& after.tx_work() + sent + dropped == before.tx_work()
    &&& after.stats_spec().tx_packets == bumped(before.stats_spec().tx_packets, sent)
    &&& after.stats_spec().tx_drops == bumped(before.stats_spec().tx_drops, dropped)
}

/// Every socket has nothing pending, or declined what is pending and is as that left it.
pub open spec fn all_declined<S: UdpSocket>(sockets: Seq<S>, pending: Seq<PendingTx<S>>) -> bool {
    forall|b: int|
        0 <= b < pending.len() ==> (#[trigger] pending[b])@.len() == 0 || declined(
            sockets[b],
            pending[b]@,
        )
}

/// The lanes' work went to the pending packets, filled buffers first: from `first` to
/// `offered`, as far as the sockets with nothing pending took it.
pub open spec fn all_work_moved<
    S: UdpSocket,
    C: IngressClassifier<S::RecvMeta, UdpRxBuffer<S>>,
>(
    before: UdpTile<S, C>,
    after: UdpTile<S, C>,
    first: Seq<PendingTx<S>>,
    offered: Seq<PendingTx<S>>,
    can_retarget: bool,
) -> bool {
    exists|between: Seq<PendingTx<S>>, drops: u64, turn: usize|
        {
            &&& #[trigger] work_moved::<UdpTxBuffer<S>, TileTxBufferWork<S>>(
                before.buffer_backlogs(),
                after.buffer_backlogs(),
                first,
                between,
                before.stats_spec().tx_drops,
                drops,
                before.turn(),
                turn,
                opened(first),
                tx_work_capacity_spec(before.config_spec()) as nat,
                before.config_spec().batch_size,
                can_retarget,
            )
            &&& work_moved::<UdpTxBuffer<S>, TileTxPacket<S>>(
                before.packet_backlogs(),
                after.packet_backlogs(),
                between,
                offered,
                drops,
                after.stats_spec().tx_drops,
                turn,
                after.turn(),
                opened(first),
                tx_work_capacity_spec(before.config_spec()) as nat,
                before.config_spec().batch_size,
                can_retarget,
            )
        }
}

/// How a pass moved packets to the sockets. The pending packets were sent as far
/// as the sockets took them, which left `first`. The lanes' work was added to the
/// sockets without pending packets as far as it went, which made `offered`, and that
/// was sent again. The sends took the sockets from `given` over `between` to `end`.
pub open spec fn transmit_passed<
    S: UdpSocket,
    C: IngressClassifier<S::RecvMeta, UdpRxBuffer<S>>,
>(
    before: UdpTile<S, C>,
    after: UdpTile<S, C>,
    given: Seq<S>,
    between: Seq<S>,
    end: Seq<S>,
    first: Seq<PendingTx<S>>,
    offered: Seq<PendingTx<S>>,
    can_retarget: bool,
) -> bool {
    &&& sockets_flushed(
        given,
        between,
        before.pending_spec(),
        first,
        Ok::<(), SendError>(()),
        first.len() as int,
    )
    &&& all_declined(between, first)
    &&& all_work_moved(before, after, first, offered, can_retarget)
    &&& offered.len() == first.len()
    &&& turns_fit(before.turn(), before.tx_work() + 2 * before.lanes(), first.len())
        ==> after.lanes_stuck(opened(first), offered)
    &&& sockets_flushed(
        between,
        end,
        offered,
        after.pending_spec(),
        Ok::<(), SendError>(()),
        first.len() as int,
    )
    &&& all_declined(end, after.pending_spec())
}

/// A transmission is the same for a tile whose transmit side has not changed since.
proof fn lemma_transmit_stays<S: UdpSocket, C: IngressClassifier<S::RecvMeta, UdpRxBuffer<S>>>(
    before: UdpTile<S, C>,
    middle: UdpTile<S, C>,
    after: UdpTile<S, C>,
    given: Seq<S>,
    between: Seq<S>,
    end: Seq<S>,
    first: Seq<PendingTx<S>>,
    offered: Seq<PendingTx<S>>,
    can_retarget: bool,
)
    requires
        transmit_passed(before, middle, given, between, end, first, offered, can_retarget),
        after.lanes() == middle.lanes(),
        after.config_spec() == middle.config_spec(),
        after.turn() == middle.turn(),
        after.pending_spec() == middle.pending_spec(),
        after.stats_spec().tx_drops == middle.stats_spec().tx_drops,
        forall|lane: int|
            0 <= lane < after.lanes() ==> {
                &&& #[trigger] after.buffer_backlog(lane) == middle.buffer_backlog(lane)
                &&& after.packet_backlog(lane) == middle.packet_backlog(lane)
            },
    ensures
        transmit_passed(before, after, given, between, end, first, offered, can_retarget),
{
    assert(after.buffer_backlogs() =~= middle.buffer_backlogs());
    assert(after.packet_backlogs() =~= middle.packet_backlogs()) by {
        assert forall|lane: int| 0 <= lane < after.lanes() implies after.packet_backlog(lane)
            == middle.packet_backlog(lane) by {
            assert(after.buffer_backlog(lane) == middle.buffer_backlog(lane));
        }
    }
    assert(all_work_moved(before, after, first, offered, can_retarget));
    if turns_fit(before.turn(), before.tx_work() + 2 * before.lanes(), first.len()) {
        assert(middle.lanes_stuck(opened(first), offered));
        assert forall|lane: int|
            #![trigger after.buffer_backlog(lane)]
            #![trigger after.packet_backlog(lane)]
            0 <= lane < after.lanes() implies {
            &&& lane_stuck::<UdpTxBuffer<S>, TileTxBufferWork<S>>(
                after.buffer_backlog(lane),
                opened(first),
                tx_work_capacity_spec(after.config_spec()) as nat,
                offered,
            )
            &&& lane_stuck::<UdpTxBuffer<S>, TileTxPacket<S>>(
                after.packet_backlog(lane),
                opened(first),
                tx_work_capacity_spec(after.config_spec()) as nat,
                offered,
            )
        } by {
            assert(after.buffer_backlog(lane) == middle.buffer_backlog(lane));
        }
    }
}

/// The free transmit buffers of the lanes were topped up one after the other, which
/// took the sockets through `stages`.
pub open spec fn lanes_topped_up<
    S: UdpSocket,
    C: IngressClassifier<S::RecvMeta, UdpRxBuffer<S>>,
>(
    before: UdpTile<S, C>,
    after: UdpTile<S, C>,
    sockets_before: Seq<S>,
    sockets_after: Seq<S>,
    stages: Seq<Seq<S>>,
) -> bool {
    &&& stages.len() == before.lanes() + 1
    &&& stages[0] == sockets_before
    &&& stages.last() == sockets_after
    &&& forall|l: int|
        #![trigger stages[l]]
        0 <= l < before.lanes() ==> topped_up(
            before.lane_buffers(l),
            after.lane_buffers(l),
            stages[l],
            stages[l + 1],
            before.config_spec(),
        )
}

/// Topping up the lanes' free transmit buffers stopped with `error` at the lane that
/// follows the last stage. The lanes behind it got nothing.
pub open spec fn lanes_top_up_failed<
    S: UdpSocket,
    C: IngressClassifier<S::RecvMeta, UdpRxBuffer<S>>,
>(
    before: UdpTile<S, C>,
    after: UdpTile<S, C>,
    sockets_before: Seq<S>,
    sockets_after: Seq<S>,
    stages: Seq<Seq<S>>,
    error: Error,
) -> bool {
    let failed = stages.len() - 1;
    &&& 0 <= failed < before.lanes()
    &&& stages[0] == sockets_before
    &&& forall|l: int|
        #![trigger stages[l]]
        0 <= l < failed ==> topped_up(
            before.lane_buffers(l),
            after.lane_buffers(l),
            stages[l],
            stages[l + 1],
            before.config_spec(),
        )
    &&& top_up_failed(
        before.lane_buffers(failed),
        after.lane_buffers(failed),
        stages[failed],
        sockets_after,
        before.config_spec(),
        error,
    )
    &&& forall|l: int|
        failed < l < before.lanes() ==> #[trigger] after.lane_buffers(l) == before.lane_buffers(l)
}

/// The lanes' work, the drops and the turn are as they were.
pub open spec fn work_untouched<
    S: UdpSocket,
    C: IngressClassifier<S::RecvMeta, UdpRxBuffer<S>>,
>(before: UdpTile<S, C>, after: UdpTile<S, C>) -> bool {
    &&& after.buffer_backlogs() == before.buffer_backlogs()
    &&& after.packet_backlogs() == before.packet_backlogs()
    &&& after.stats_spec().tx_drops == before.stats_spec().tx_drops
    &&& after.turn() == before.turn()
}

/// The packets that left the pending lists.
pub open spec fn packets_left<T>(before: Seq<Vec<T>>, after: Seq<Vec<T>>) -> int {
    list_total(before) - list_total(after)
}

/// The transmit side of a pass ran to its end and sent `sent` packets. It took the
/// sockets from `start` over `given` and `between` to `end`.
pub open spec fn transmit_done<
    S: UdpSocket,
    C: IngressClassifier<S::RecvMeta, UdpRxBuffer<S>>,
>(
    before: UdpTile<S, C>,
    after: UdpTile<S, C>,
    start: Seq<S>,
    given: Seq<S>,
    between: Seq<S>,
    end: Seq<S>,
    completed: Seq<usize>,
    first: Seq<PendingTx<S>>,
    offered: Seq<PendingTx<S>>,
    can_retarget: bool,
    sent: nat,
) -> bool {
    &&& sockets_reclaimed(start, given, completed)
    &&& transmit_passed(before, after, given, between, end, first, offered, can_retarget)
    &&& sent == packets_left(before.pending_spec(), first) + packets_left(
        offered,
        after.pending_spec(),
    )
}

/// The transmit side of a pass ran to its end; `progressed` says whether anything was
/// reclaimed, sent or moved.
pub open spec fn transmit_ended<
    S: UdpSocket,
    C: IngressClassifier<S::RecvMeta, UdpRxBuffer<S>>,
>(
    before: UdpTile<S, C>,
    after: UdpTile<S, C>,
    start: Seq<S>,
    end: Seq<S>,
    can_retarget: bool,
    sent: nat,
    progressed: bool,
) -> bool {
    exists|
        given: Seq<S>,
        between: Seq<S>,
        completed: Seq<usize>,
        first: Seq<PendingTx<S>>,
        offered: Seq<PendingTx<S>>,
    |
        {
            &&& #[trigger] transmit_done(
                before,
                after,
                start,
                given,
                between,
                end,
                completed,
                first,
                offered,
                can_retarget,
                sent,
            )
            &&& progressed == (any_completed(completed) || sent > 0 || after.backlog_total()
                < before.backlog_total())
        }
}

/// The first send of a pass stopped with `error`, after the completions were reclaimed.
pub open spec fn first_send_stopped<
    S: UdpSocket,
    C: IngressClassifier<S::RecvMeta, UdpRxBuffer<S>>,
>(
    before: UdpTile<S, C>,
    after: UdpTile<S, C>,
    start: Seq<S>,
    given: Seq<S>,
    end: Seq<S>,
    completed: Seq<usize>,
    done: int,
    sent: nat,
    error: SendError,
) -> bool {
    &&& sockets_reclaimed(start, given, completed)
    &&& sockets_flushed(
        given,
        end,
        before.pending_spec(),
        after.pending_spec(),
        Err::<(), SendError>(error),
        done,
    )
    &&& work_untouched(before, after)
    &&& sent == packets_left(before.pending_spec(), after.pending_spec())
}

/// The second send of a pass stopped with `error`, after the lanes' work had been moved
/// to the pending packets.
pub open spec fn second_send_stopped<
    S: UdpSocket,
    C: IngressClassifier<S::RecvMeta, UdpRxBuffer<S>>,
>(
    before: UdpTile<S, C>,
    after: UdpTile<S, C>,
    start: Seq<S>,
    given: Seq<S>,
    between: Seq<S>,
    end: Seq<S>,
    completed: Seq<usize>,
    first: Seq<PendingTx<S>>,
    offered: Seq<PendingTx<S>>,
    can_retarget: bool,
    done: int,
    sent: nat,
    error: SendError,
) -> bool {
    &&& sockets_reclaimed(start, given, completed)
    &&& sockets_flushed(
        given,
        between,
        before.pending_spec(),
        first,
        Ok::<(), SendError>(()),
        first.len() as int,
    )
    &&& all_declined(between, first)
    &&& all_work_moved(before, after, first, offered, can_retarget)
    &&& sockets_flushed(
        between,
        end,
        offered,
        after.pending_spec(),
        Err::<(), SendError>(error),
        done,
    )
    &&& sent == packets_left(before.pending_spec(), first) + packets_left(
        offered,
        after.pending_spec(),
    )
}

/// The transmit side of a pass stopped with `error`, having sent `sent` packets.
pub open spec fn transmit_stopped<
    S: UdpSocket,
    C: IngressClassifier<S::RecvMeta, UdpRxBuffer<S>>,
>(
    before: UdpTile<S, C>,
    after: UdpTile<S, C>,
    start: Seq<S>,
    end: Seq<S>,
    can_retarget: bool,
    sent: nat,
    error: TileError,
) -> bool {
    match error {
        TileError::Socket(error) => {
            &&& exists|completed: Seq<usize>| #[trigger]
                reclaim_stopped(start, end, completed, error)
            &&& work_untouched(before, after)
            &&& after.pending_spec() == before.pending_spec()
            &&& sent == 0
        },
        TileError::Send(error) => {
            ||| exists|given: Seq<S>, completed: Seq<usize>, done: int| #[trigger]
                first_send_stopped(before, after, start, given, end, completed, done, sent, error)
            ||| exists|
                given: Seq<S>,
                between: Seq<S>,
                completed: Seq<usize>,
                first: Seq<PendingTx<S>>,
                offered: Seq<PendingTx<S>>,
                done: int,
            | #[trigger]
                second_send_stopped(
                    before,
                    after,
                    start,
                    given,
                    between,
                    end,
                    completed,
                    first,
                    offered,
                    can_retarget,
                    done,
                    sent,
                    error,
                )
        },
        _ => false,
    }
}

/// Nothing was received.
pub open spec fn receive_untouched<
    S: UdpSocket,
    C: IngressClassifier<S::RecvMeta, UdpRxBuffer<S>>,
>(before: UdpTile<S, C>, after: UdpTile<S, C>) -> bool {
    &&& after.rx_lanes() == before.rx_lanes()
    &&& after.stats_spec().classifier_drops == before.stats_spec().classifier_drops
    &&& after.stats_spec().rx_queue_drops == before.stats_spec().rx_queue_drops
}

/// The receive side of a pass ran: the sockets went from `asked` to `end`, every packet
/// that they gave was accounted for, and `r` says whether there was any or which
/// failure came.
pub open spec fn receive_ran<
    S: UdpSocket,
    C: IngressClassifier<S::RecvMeta, UdpRxBuffer<S>>,
>(
    before: UdpTile<S, C>,
    after: UdpTile<S, C>,
    asked: Seq<S>,
    end: Seq<S>,
    r: Result<bool, TileError>,
) -> bool {
    exists|
        batches: Seq<Seq<UdpReceive<UdpRxBuffer<S>, S::RecvMeta>>>,
        decisions: Seq<Seq<IngressDecision>>,
        sources: Seq<SocketIndex>,
        overflow: nat,
    |
        {
            &&& #[trigger] received_accounted(
                before.rx_lanes(),
                after.rx_lanes(),
                before.stats_spec(),
                after.stats_spec(),
                batches,
                decisions,
                sources,
                overflow,
                r is Ok,
            )
            &&& batches_received(
                asked,
                end,
                before.classifier_spec(),
                before.lanes(),
                batches,
                decisions,
                sources,
            )
            &&& match r {
                Ok(progressed) => batches.len() == asked.len() && progressed == (stream_total(
                    batches,
                ) > 0),
                Err(TileError::Socket(error)) => receive_stopped(
                    asked,
                    end,
                    batches.len() as int,
                    error,
                ),
                Err(_) => false,
            }
        }
}

/// What a pass did after its transmit side: topped up the lanes and received. It took
/// the sockets from `sent_all` over `asked` to `end`. `transmitted` says whether the
/// transmit side made progress.
pub open spec fn lanes_served<
    S: UdpSocket,
    C: IngressClassifier<S::RecvMeta, UdpRxBuffer<S>>,
>(
    before: UdpTile<S, C>,
    after: UdpTile<S, C>,
    sent_all: Seq<S>,
    end: Seq<S>,
    transmitted: bool,
    r: Result<bool, TileError>,
) -> bool {
    ||| {
        &&& r matches Err(TileError::Socket(error))
        &&& receive_untouched(before, after)
        &&& exists|stages: Seq<Seq<S>>| #[trigger]
            lanes_top_up_failed(before, after, sent_all, end, stages, error)
    }
    ||| exists|asked: Seq<S>, stages: Seq<Seq<S>>, received: Result<bool, TileError>|
        {
            &&& #[trigger] lanes_topped_up(before, after, sent_all, asked, stages)
            &&& #[trigger] receive_ran(before, after, asked, end, received)
            &&& match received {
                Ok(progressed) => r == Ok::<bool, TileError>(
                    transmitted || refill_progress(before, after) || progressed,
                ),
                Err(error) => r == Err::<bool, TileError>(error),
            }
        }
}

/// One pass over the sockets, which took them from `start` to `end`, sent `sent` packets
/// and ended with `r`: completions were reclaimed, packets sent, lanes topped up and
/// packets received, up to the first failure.
pub open spec fn pass_ran<S: UdpSocket, C: IngressClassifier<S::RecvMeta, UdpRxBuffer<S>>>(
    before: UdpTile<S, C>,
    after: UdpTile<S, C>,
    start: Seq<S>,
    end: Seq<S>,
    can_retarget: bool,
    sent: nat,
    r: Result<bool, TileError>,
) -> bool {
    ||| {
        &&& r matches Err(error)
        &&& transmit_stopped(before, after, start, end, can_retarget, sent, error)
        &&& receive_untouched(before, after)
        &&& forall|l: int|
            0 <= l < before.lanes() ==> #[trigger] after.lane_buffers(l) == before.lane_buffers(l)
    }
    ||| exists|sent_all: Seq<S>, transmitted: bool|
        {
            &&& #[trigger] transmit_ended(
                before,
                after,
                start,
                sent_all,
                can_retarget,
                sent,
                transmitted,
            )
            &&& lanes_served(before, after, sent_all, end, transmitted, r)
        }
}

/// The transmit side of a pass is the same for a tile whose transmit side has not changed
/// since.
proof fn lemma_transmit_ended_stays<
    S: UdpSocket,
    C: IngressClassifier<S::RecvMeta, UdpRxBuffer<S>>,
>(
    before: UdpTile<S, C>,
    middle: UdpTile<S, C>,
    after: UdpTile<S, C>,
    start: Seq<S>,
    end: Seq<S>,
    can_retarget: bool,
    sent: nat,
    progressed: bool,
)
    requires
        transmit_ended(before, middle, start, end, can_retarget, sent, progressed),
        after.lanes() == middle.lanes(),
        after.config_spec() == middle.config_spec(),
        after.turn() == middle.turn(),
        after.pending_spec() == middle.pending_spec(),
        after.stats_spec().tx_drops == middle.stats_spec().tx_drops,
        after.buffer_work == middle.buffer_work,
        after.packet_work == middle.packet_work,
        after.deferred_buffer_work == middle.deferred_buffer_work,
        after.deferred_packets == middle.deferred_packets,
    ensures
        transmit_ended(before, after, start, end, can_retarget, sent, progressed),
{
    let (given, between, completed, first, offered) = choose|
        given: Seq<S>,
        between: Seq<S>,
        completed: Seq<usize>,
        first: Seq<PendingTx<S>>,
        offered: Seq<PendingTx<S>>,
    |
        {
            &&& #[trigger] transmit_done(
                before,
                middle,
                start,
                given,
                between,
                end,
                completed,
                first,
                offered,
                can_retarget,
                sent,
            )
            &&& progressed == (any_completed(completed) || sent > 0 || middle.backlog_total()
                < before.backlog_total())
        };
    assert forall|lane: int| 0 <= lane < after.lanes() implies {
        &&& #[trigger] after.buffer_backlog(lane) == middle.buffer_backlog(lane)
        &&& after.packet_backlog(lane) == middle.packet_backlog(lane)
    } by {}
    lemma_transmit_stays(
        before,
        middle,
        after,
        given,
        between,
        end,
        first,
        offered,
        can_retarget,
    );
    assert(transmit_done(
        before,
        after,
        start,
        given,
        between,
        end,
        completed,
        first,
        offered,
        can_retarget,
        sent,
    ));
}

/// What a failed top up did is the same seen from an earlier tile with the same buffers.
proof fn lemma_top_up_failed_before<
    S: UdpSocket,
    C: IngressClassifier<S::RecvMeta, UdpRxBuffer<S>>,
>(
    earlier: UdpTile<S, C>,
    before: UdpTile<S, C>,
    after: UdpTile<S, C>,
    sockets_before: Seq<S>,
    sockets_after: Seq<S>,
    stages: Seq<Seq<S>>,
    error: Error,
)
    requires
        lanes_top_up_failed(before, after, sockets_before, sockets_after, stages, error),
        before.lanes() == earlier.lanes(),
        before.config_spec() == earlier.config_spec(),
        before.tx_buffers == earlier.tx_buffers,
    ensures
        lanes_top_up_failed(earlier, after, sockets_before, sockets_after, stages, error),
{
    assert forall|l: int| #[trigger] before.lane_buffers(l) == earlier.lane_buffers(l) by {}
    let failed = stages.len() - 1;
    assert forall|l: int|
        #![trigger stages[l]]
        0 <= l < failed implies topped_up(
        earlier.lane_buffers(l),
        after.lane_buffers(l),
        stages[l],
        stages[l + 1],
        earlier.config_spec(),
    ) by {
        assert(before.lane_buffers(l) == earlier.lane_buffers(l));
    }
    assert(before.lane_buffers(failed) == earlier.lane_buffers(failed));
    assert forall|l: int| failed < l < earlier.lanes() implies #[trigger] after.lane_buffers(l)
        == earlier.lane_buffers(l) by {
        assert(before.lane_buffers(l) == earlier.lane_buffers(l));
    }
}

/// What a pass received is the same seen from an earlier tile with the same receive side.
proof fn lemma_receive_ran_before<
    S: UdpSocket,
    C: IngressClassifier<S::RecvMeta, UdpRxBuffer<S>>,
>(
    earlier: UdpTile<S, C>,
    before: UdpTile<S, C>,
    after: UdpTile<S, C>,
    asked: Seq<S>,
    end: Seq<S>,
    r: Result<bool, TileError>,
)
    requires
        receive_ran(before, after, asked, end, r),
        receive_untouched(earlier, before),
        before.lanes() == earlier.lanes(),
        before.classifier_spec() == earlier.classifier_spec(),
    ensures
        receive_ran(earlier, after, asked, end, r),
{
    let (batches, decisions, sources, overflow) = choose|
        batches: Seq<Seq<UdpReceive<UdpRxBuffer<S>, S::RecvMeta>>>,
        decisions: Seq<Seq<IngressDecision>>,
        sources: Seq<SocketIndex>,
        overflow: nat,
    |
        {
            &&& #[trigger] received_accounted(
                before.rx_lanes(),
                after.rx_lanes(),
                before.stats_spec(),
                after.stats_spec(),
                batches,
                decisions,
                sources,
                overflow,
                r is Ok,
            )
            &&& batches_received(
                asked,
                end,
                before.classifier_spec(),
                before.lanes(),
                batches,
                decisions,
                sources,
            )
            &&& match r {
                Ok(progressed) => batches.len() == asked.len() && progressed == (stream_total(
                    batches,
                ) > 0),
                Err(TileError::Socket(error)) => receive_stopped(
                    asked,
                    end,
                    batches.len() as int,
                    error,
                ),
                Err(_) => false,
            }
        };
    assert(received_accounted(
        earlier.rx_lanes(),
        after.rx_lanes(),
        earlier.stats_spec(),
        after.stats_spec(),
        batches,
        decisions,
        sources,
        overflow,
        r is Ok,
    ));
}

/// Whether some lane got buffers is the same for tiles with the same buffers.
proof fn lemma_refill_progress_same<
    S: UdpSocket,
    C: IngressClassifier<S::RecvMeta, UdpRxBuffer<S>>,
>(
    earlier: UdpTile<S, C>,
    before: UdpTile<S, C>,
    after: UdpTile<S, C>,
    later: UdpTile<S, C>,
)
    requires
        later.lanes() == after.lanes(),
        before.tx_buffers == earlier.tx_buffers,
        later.tx_buffers == after.tx_buffers,
    ensures
        refill_progress(earlier, later) == refill_progress(before, after),
{
    assert forall|lane: int| #[trigger] before.lane_buffers(lane) == earlier.lane_buffers(lane) by {
    }
    assert forall|lane: int| #[trigger] later.lane_buffers(lane) == after.lane_buffers(lane) by {}
    if refill_progress(earlier, later) {
        let lane = choose|lane: int|
            0 <= lane < later.lanes() && (#[trigger] later.lane_buffers(lane))@
                != earlier.lane_buffers(lane)@;
        assert(after.lane_buffers(lane) == later.lane_buffers(lane));
        assert(before.lane_buffers(lane) == earlier.lane_buffers(lane));
    }
    if refill_progress(before, after) {
        let lane = choose|lane: int|
            0 <= lane < after.lanes() && (#[trigger] after.lane_buffers(lane))@
                != before.lane_buffers(lane)@;
        assert(after.lane_buffers(lane) == later.lane_buffers(lane));
        assert(before.lane_buffers(lane) == earlier.lane_buffers(lane));
    }
}

/// Some lane got transmit buffers.
pub open spec fn refill_progress<
    S: UdpSocket,
    C: IngressClassifier<S::RecvMeta, UdpRxBuffer<S>>,
>(before: UdpTile<S, C>, after: UdpTile<S, C>) -> bool {
    exists|lane: int|
        0 <= lane < after.lanes() && (#[trigger] after.lane_buffers(lane))@
            != before.lane_buffers(lane)@
}

/// The sockets that take new packets: those with nothing pending.
pub open spec fn opened<T>(pending: Seq<Vec<T>>) -> Seq<bool> {
    Seq::new(pending.len(), |b: int| pending[b]@.len() == 0)
}

/// Lane-owned handle for a [`UdpTile`]: whoever holds it is the lane's only user.
#[derive(Debug)]
pub struct UdpTileHandle {
    lane_index: usize,
}

impl UdpTileHandle {
    /// The lane that this handle owns.
    pub closed spec fn lane(&self) -> usize {
        self.lane_index
    }

    /// Returns the lane index owned by this handle.
    #[must_use]
    pub fn lane_index(&self) -> (r: usize)
        ensures
            r == self.lane(),
    {
        self.lane_index
    }
}

/// A tile that drives a set of sockets for a number of lanes.
pub struct UdpTile<S: UdpSocket, C: IngressClassifier<S::RecvMeta, UdpRxBuffer<S>>> {
    rx: RxLanes<S>,
    received: TileRecvBatch<S>,
    classifier: C,
    tx_buffers: Vec<SpscRing<TileTxBuffer<S>>>,
    buffer_work: Vec<SpscRing<TileTxBufferWork<S>>>,
    packet_work: Vec<SpscRing<TileTxPacket<S>>>,
    deferred_buffer_work: Vec<Option<TileTxBufferWork<S>>>,
    deferred_packets: Vec<Option<TileTxPacket<S>>>,
    taken: Vec<bool>,
    started: bool,
    stats: TileStats,
    config: TileConfig,
    pending: Vec<PendingTx<S>>,
    admission: TxAdmission,
    next_tx_socket: usize,
}

impl<S: UdpSocket, C: IngressClassifier<S::RecvMeta, UdpRxBuffer<S>>> UdpTile<S, C> {
    /// The number of lanes.
    pub closed spec fn lanes(&self) -> nat {
        self.taken@.len()
    }

    /// The received packets on their way to the lanes.
    pub closed spec fn rx_lanes(&self) -> RxLanes<S> {
        self.rx
    }

    /// The free transmit buffers of a lane.
    pub closed spec fn lane_buffers(&self, lane: int) -> SpscRing<TileTxBuffer<S>> {
        self.tx_buffers@[lane]
    }

    /// The filled transmit buffers that a lane has queued.
    pub closed spec fn lane_buffer_work(&self, lane: int) -> SpscRing<TileTxBufferWork<S>> {
        self.buffer_work@[lane]
    }

    /// The packets that a lane has queued.
    pub closed spec fn lane_packet_work(&self, lane: int) -> SpscRing<TileTxPacket<S>> {
        self.packet_work@[lane]
    }

    /// Whether each lane's handle has been given out.
    pub closed spec fn taken_lanes(&self) -> Seq<bool> {
        self.taken@
    }

    /// The worker has been started.
    pub closed spec fn is_started(&self) -> bool {
        self.started
    }

    /// The statistics so far.
    pub closed spec fn stats_spec(&self) -> TileStats {
        self.stats
    }

    /// The configuration.
    pub closed spec fn config_spec(&self) -> TileConfig {
        self.config
    }

    /// The classifier.
    pub closed spec fn classifier_spec(&self) -> C {
        self.classifier
    }

    /// The packets that wait for each socket.
    pub closed spec fn pending_spec(&self) -> Seq<PendingTx<S>> {
        self.pending@
    }

    /// All transmit work inside the tile: queued by lanes, put aside, or
    /// pending for a socket.
    pub closed spec fn tx_work(&self) -> nat {
        list_total(self.pending@) + work_total(self.deferred_buffer_work@, self.buffer_work@)
            + work_total(self.deferred_packets@, self.packet_work@)
    }

    /// The transmit work of all lanes.
    pub closed spec fn backlog_total(&self) -> nat {
        work_total(self.deferred_buffer_work@, self.buffer_work@) + work_total(
            self.deferred_packets@,
            self.packet_work@,
        )
    }

    /// No lane has queued any transmit work.
    pub open spec fn lanes_idle(&self) -> bool {
        forall|lane: int|
            0 <= lane < self.lanes() ==> (#[trigger] self.lane_buffer_work(lane))@.len() == 0
                && self.lane_packet_work(lane)@.len() == 0
    }

    /// The work of a lane that consists of filled buffers, oldest first.
    pub closed spec fn buffer_backlog(&self, lane: int) -> Seq<TileTxBufferWork<S>> {
        work_list(self.deferred_buffer_work@[lane], self.buffer_work@[lane]@)
    }

    /// The work of a lane that consists of packets, oldest first.
    pub closed spec fn packet_backlog(&self, lane: int) -> Seq<TileTxPacket<S>> {
        work_list(self.deferred_packets@[lane], self.packet_work@[lane]@)
    }

    /// The filled buffers of every lane, oldest first.
    pub open spec fn buffer_backlogs(&self) -> Seq<Seq<TileTxBufferWork<S>>> {
        Seq::new(self.lanes(), |lane: int| self.buffer_backlog(lane))
    }

    /// The packets of every lane, oldest first.
    pub open spec fn packet_backlogs(&self) -> Seq<Seq<TileTxPacket<S>>> {
        Seq::new(self.lanes(), |lane: int| self.packet_backlog(lane))
    }

    /// The turn of the round robin over the sockets.
    pub closed spec fn turn(&self) -> usize {
        self.next_tx_socket
    }

    /// No lane has work that the `open` sockets take.
    pub open spec fn lanes_stuck(&self, open: Seq<bool>, pending: Seq<PendingTx<S>>) -> bool {
        forall|lane: int|
            #![trigger self.buffer_backlog(lane)]
            #![trigger self.packet_backlog(lane)]
            0 <= lane < self.lanes() ==> {
                &&& lane_stuck::<UdpTxBuffer<S>, TileTxBufferWork<S>>(
                    self.buffer_backlog(lane),
                    open,
                    tx_work_capacity_spec(self.config_spec()) as nat,
                    pending,
                )
                &&& lane_stuck::<UdpTxBuffer<S>, TileTxPacket<S>>(
                    self.packet_backlog(lane),
                    open,
                    tx_work_capacity_spec(self.config_spec()) as nat,
                    pending,
                )
            }
    }

    /// `self` has the lanes, settings, statistics and handed out lanes of `other`.
    pub open spec fn same_setup(&self, other: &Self) -> bool {
        &&& self.lanes() == other.lanes()
        &&& self.config_spec() == other.config_spec()
        &&& self.stats_spec() == other.stats_spec()
        &&& self.taken_lanes() == other.taken_lanes()
        &&& self.is_started() == other.is_started()
        &&& self.pending_spec() == other.pending_spec()
        &&& self.classifier_spec() == other.classifier_spec()
    }

    /// Every lane has its queues and all work in them is consistent.
    pub closed spec fn wf(&self) -> bool {
        &&& self.rx.wf()
        &&& self.rx.lanes() == self.lanes()
        &&& self.rx.batch_limit() == self.config.batch_size
        &&& self.received.wf()
        &&& self.tx_buffers@.len() == self.lanes()
        &&& self.buffer_work@.len() == self.lanes()
        &&& self.packet_work@.len() == self.lanes()
        &&& self.deferred_buffer_work@.len() == self.lanes()
        &&& self.deferred_packets@.len() == self.lanes()
        &&& self.config.batch_size > 0
        &&& self.admission.wf()
        &&& self.admission@.len() == self.pending@.len()
        &&& self.admission.limit() == tx_work_capacity_spec(self.config)
        &&& forall|b: int|
            0 <= b < self.pending@.len() ==> (#[trigger] self.pending@[b])@.len()
                <= self.admission.limit()
        &&& forall|l: int| 0 <= l < self.lanes() ==> (#[trigger] self.tx_buffers@[l]).wf()
        &&& forall|l: int|
            #![trigger self.buffer_work@[l]]
            0 <= l < self.lanes() ==> lane_work_ok::<UdpTxBuffer<S>, TileTxBufferWork<S>>(
                self.deferred_buffer_work@[l],
                self.buffer_work@[l],
            )
        &&& forall|l: int|
            #![trigger self.packet_work@[l]]
            0 <= l < self.lanes() ==> lane_work_ok::<UdpTxBuffer<S>, TileTxPacket<S>>(
                self.deferred_packets@[l],
                self.packet_work@[l],
            )
    }

    /// The lanes' transmit queues are those of `other`, but for the free buffers of the
    /// lane `buffers`, the filled buffers of `filled` and the packets of `packets`.
    pub open spec fn same_lanes(
        &self,
        other: &Self,
        buffers: int,
        filled: int,
        packets: int,
    ) -> bool {
        &&& self.turn() == other.turn()
        &&& forall|l: int|
            #![trigger self.lane_buffers(l)]
            0 <= l < self.lanes() && l != buffers ==> self.lane_buffers(l) == other.lane_buffers(l)
        &&& forall|l: int|
            #![trigger self.lane_buffer_work(l)]
            0 <= l < self.lanes() && l != filled ==> self.lane_buffer_work(l)
                == other.lane_buffer_work(l)
        &&& forall|l: int|
            #![trigger self.buffer_backlog(l)]
            0 <= l < self.lanes() && l != filled ==> self.buffer_backlog(l)
                == other.buffer_backlog(l)
        &&& forall|l: int|
            #![trigger self.lane_packet_work(l)]
            0 <= l < self.lanes() && l != packets ==> self.lane_packet_work(l)
                == other.lane_packet_work(l)
        &&& forall|l: int|
            #![trigger self.packet_backlog(l)]
            0 <= l < self.lanes() && l != packets ==> self.packet_backlog(l)
                == other.packet_backlog(l)
    }

    /// The tile is `other`, but for which lane handles were given out.
    pub open spec fn same_but_taken(&self, other: &Self) -> bool {
        &&& self.lanes() == other.lanes()
        &&& self.config_spec() == other.config_spec()
        &&& self.stats_spec() == other.stats_spec()
        &&& self.is_started() == other.is_started()
        &&& self.rx_lanes() == other.rx_lanes()
        &&& self.pending_spec() == other.pending_spec()
        &&& self.classifier_spec() == other.classifier_spec()
        &&& self.tx_work() == other.tx_work()
        &&& self.same_lanes(other, -1, -1, -1)
    }

    /// The tile was just made: nothing is queued, sent or taken.
    pub open spec fn is_fresh(&self, classifier: C, lane_count: usize, config: TileConfig) -> bool {
        &&& self.lanes() == lane_count
        &&& self.config_spec() == config
        &&& self.classifier_spec() == classifier
        &&& !self.is_started()
        &&& self.tx_work() == 0
        &&& self.turn() == 0
        &&& self.stats_spec() == (TileStats {
            classifier_drops: 0,
            rx_queue_drops: 0,
            tx_drops: 0,
            tx_packets: 0,
        })
        &&& self.pending_spec().len() == 0
        &&& self.taken_lanes() == Seq::new(lane_count as nat, |l: int| false)
        &&& self.rx_lanes().spare_batches().len() == 0
        &&& self.rx_lanes().spare_limit() == rx_queue_capacity_spec(config) * lane_count
            + lane_count
        &&& forall|l: int|
            0 <= l < lane_count ==> {
                &&& !(#[trigger] self.taken_lanes()[l])
                &&& self.rx_lanes().queued(l).len() == 0
                &&& self.rx_lanes().collecting(l).len() == 0
                &&& self.rx_lanes().queue_limit(l) == rx_queue_capacity_spec(config)
                &&& self.lane_buffers(l)@.len() == 0
                &&& self.buffer_backlog(l).len() == 0
                &&& self.packet_backlog(l).len() == 0
                &&& self.lane_buffers(l).spec_capacity() == ring_capacity(
                    config.tx_buffer_queue_capacity,
                )
                &&& self.lane_buffer_work(l).spec_capacity() == ring_capacity(
                    tx_work_capacity_spec(config),
                )
                &&& self.lane_packet_work(l).spec_capacity() == ring_capacity(
                    tx_work_capacity_spec(config),
                )
            }
    }

    /// Creates a tile with default configuration.
    #[must_use]
    pub fn new(classifier: C, lane_count: usize) -> (r: Self)
        requires
            lane_count > 0,
            17 * lane_count * 16 <= isize::MAX,
        ensures
            r.wf(),
            r.is_fresh(classifier, lane_count, TileConfig::default_spec()),
    {
        let config = TileConfig::default();
        proof {
            assert(rx_queue_capacity_spec(config) == 16);
        }
        Self::with_config(classifier, lane_count, config)
    }

    /// Creates a tile with explicit configuration.
    #[must_use]
    pub fn with_config(classifier: C, lane_count: usize, config: TileConfig) -> (r: Self)
        requires
            tile_config_ok(lane_count, config),
        ensures
            r.wf(),
            r.is_fresh(classifier, lane_count, config),
    {
        let rx_capacity: usize = rx_queue_capacity(config);
        proof {
            assert(rx_capacity * lane_count >= rx_capacity) by (nonlinear_arith)
                requires
                    lane_count > 0,
                    rx_capacity >= 0,
            ;
        }
        let spare: usize = rx_capacity * lane_count + lane_count;
        let work_capacity: usize = tx_work_capacity(config);
        let mut tx_buffers: Vec<SpscRing<TileTxBuffer<S>>> = Vec::with_capacity(lane_count);
        let mut buffer_work: Vec<SpscRing<TileTxBufferWork<S>>> = Vec::with_capacity(lane_count);
        let mut packet_work: Vec<SpscRing<TileTxPacket<S>>> = Vec::with_capacity(lane_count);
        let mut deferred_buffer_work: Vec<Option<TileTxBufferWork<S>>> = Vec::with_capacity(
            lane_count,
        );
        let mut deferred_packets: Vec<Option<TileTxPacket<S>>> = Vec::with_capacity(lane_count);
        let mut taken: Vec<bool> = Vec::with_capacity(lane_count);
        let mut lane: usize = 0;
        while lane < lane_count
            invariant
                lane <= lane_count,
                tx_buffers@.len() == lane,
                buffer_work@.len() == lane,
                packet_work@.len() == lane,
                deferred_buffer_work@.len() == lane,
                deferred_packets@.len() == lane,
                taken@.len() == lane,
                work_capacity == tx_work_capacity_spec(config),
                work_total(deferred_buffer_work@, buffer_work@) == 0,
                work_total(deferred_packets@, packet_work@) == 0,
                forall|l: int|
                    0 <= l < lane ==> {
                        &&& (#[trigger] tx_buffers@[l]).wf()
                        &&& tx_buffers@[l]@.len() == 0
                        &&& tx_buffers@[l].spec_capacity() == ring_capacity(
                            config.tx_buffer_queue_capacity,
                        )
                    },
                forall|l: int|
                    #![trigger buffer_work@[l]]
                    0 <= l < lane ==> {
                        &&& lane_work_ok::<UdpTxBuffer<S>, TileTxBufferWork<S>>(
                            deferred_buffer_work@[l],
                            buffer_work@[l],
                        )
                        &&& buffer_work@[l].spec_capacity() == ring_capacity(work_capacity)
                        &&& work_list(deferred_buffer_work@[l], buffer_work@[l]@).len() == 0
                    },
                forall|l: int|
                    #![trigger packet_work@[l]]
                    0 <= l < lane ==> {
                        &&& lane_work_ok::<UdpTxBuffer<S>, TileTxPacket<S>>(
                            deferred_packets@[l],
                            packet_work@[l],
                        )
                        &&& packet_work@[l].spec_capacity() == ring_capacity(work_capacity)
                        &&& work_list(deferred_packets@[l], packet_work@[l]@).len() == 0
                    },
                forall|l: int| 0 <= l < lane ==> !(#[trigger] taken@[l]),
            decreases lane_count - lane,
        {
            let ghost buffers_before = buffer_work@;
            let ghost packets_before = packet_work@;
            let ghost put_aside = deferred_buffer_work@;
            let ghost packets_aside = deferred_packets@;
            tx_buffers.push(SpscRing::new(config.tx_buffer_queue_capacity));
            buffer_work.push(SpscRing::new(work_capacity));
            packet_work.push(SpscRing::new(work_capacity));
            deferred_buffer_work.push(None);
            deferred_packets.push(None);
            taken.push(false);
            proof {
                assert(buffer_work@.drop_last() =~= buffers_before);
                assert(packet_work@.drop_last() =~= packets_before);
                assert(deferred_buffer_work@.drop_last() =~= put_aside);
                assert(deferred_packets@.drop_last() =~= packets_aside);
            }
            lane = lane + 1;
        }
        let rx = RxLanes::new(lane_count, rx_capacity, spare, config.batch_size);
        proof {
            assert forall|l: int| 0 <= l < lane_count implies {
                &&& #[trigger] rx.queued(l).len() == 0
                &&& rx.collecting(l).len() == 0
                &&& rx.queue_limit(l) == rx_capacity
            } by {
                assert(rx.queued(l).len() == 0);
            }
        }
        let r = UdpTile {
            rx,
            received: RecvBatch::with_capacity(config.batch_size),
            classifier,
            tx_buffers,
            buffer_work,
            packet_work,
            deferred_buffer_work,
            deferred_packets,
            taken,
            started: false,
            stats: TileStats::default(),
            config,
            pending: Vec::new(),
            admission: TxAdmission::new(0, config),
            next_tx_socket: 0,
        };
        proof {
            assert(r.taken_lanes() =~= Seq::new(lane_count as nat, |l: int| false));
            assert forall|l: int| 0 <= l < lane_count implies {
                &&& !(#[trigger] r.taken_lanes()[l])
                &&& r.rx_lanes().queued(l).len() == 0
                &&& r.rx_lanes().collecting(l).len() == 0
                &&& r.rx_lanes().queue_limit(l) == rx_queue_capacity_spec(config)
                &&& r.lane_buffers(l)@.len() == 0
                &&& r.buffer_backlog(l).len() == 0
                &&& r.packet_backlog(l).len() == 0
                &&& r.lane_buffers(l).spec_capacity() == ring_capacity(
                    config.tx_buffer_queue_capacity,
                )
                &&& r.lane_buffer_work(l).spec_capacity() == ring_capacity(work_capacity)
                &&& r.lane_packet_work(l).spec_capacity() == ring_capacity(work_capacity)
            } by {
                assert(r.rx.queued(l).len() == 0);
                assert(r.tx_buffers@[l].wf());
                assert(r.buffer_work@[l].spec_capacity() == ring_capacity(work_capacity));
                assert(r.packet_work@[l].spec_capacity() == ring_capacity(work_capacity));
            }
        }
        r
    }

    /// Returns the statistics so far.
    #[must_use]
    pub fn stats(&self) -> (r: TileStats)
        ensures
            r == self.stats_spec(),
    {
        self.stats
    }

    /// Gives out the handle of a lane, once.
    pub fn lane_handle(&mut self, lane_index: usize) -> (r: Option<UdpTileHandle>)
        requires
            old(self).wf(),
        ensures
            final(self).wf(),
            final(self).same_but_taken(old(self)),
            if lane_index < old(self).lanes() && !old(self).taken_lanes()[lane_index as int] {
                &&& r matches Some(handle)
                &&& handle.lane() == lane_index
                &&& final(self).taken_lanes() == old(self).taken_lanes().update(
                    lane_index as int,
                    true,
                )
            } else {
                &&& r is None
                &&& final(self).taken_lanes() == old(self).taken_lanes()
            },
    {
        if lane_index >= self.taken.len() || self.taken[lane_index] {
            return None;
        }
        self.taken[lane_index] = true;
        Some(UdpTileHandle { lane_index })
    }

    /// Returns whether no lane has queued any transmit work.
    #[must_use]
    pub fn lane_tx_queues_empty(&self) -> (r: bool)
        requires
            self.wf(),
        ensures
            r == self.lanes_idle(),
    {
        let mut lane: usize = 0;
        while lane < self.taken.len()
            invariant
                self.wf(),
                lane <= self.taken@.len(),
                forall|l: int|
                    0 <= l < lane ==> (#[trigger] self.buffer_work@[l])@.len() == 0,
                forall|l: int|
                    0 <= l < lane ==> (#[trigger] self.packet_work@[l])@.len() == 0,
            decreases self.taken@.len() - lane,
        {
            assert(self.buffer_work@[lane as int].wf());
            assert(self.packet_work@[lane as int].wf());
            if !self.buffer_work[lane].is_empty() || !self.packet_work[lane].is_empty() {
                let ghost busy = lane as int;
                assert(!(self.lane_buffer_work(busy)@.len() == 0 && self.lane_packet_work(
                    busy,
                )@.len() == 0));
                proof {
                    if self.lanes_idle() {
                        assert(0 <= busy < self.lanes());
                        assert(self.lane_buffer_work(busy)@.len() == 0);
                        assert(self.lane_packet_work(busy)@.len() == 0);
                    }
                }
                return false;
            }
            lane = lane + 1;
        }
        true
    }

    /// Tops up the transmit buffers of every lane that is below the watermark.
    fn refill_tx_buffers(&mut self, sockets: &mut [S]) -> (r: Result<bool, TileError>)
        requires
            old(self).wf(),
            0 < old(sockets)@.len() <= MAX_TILE_SOCKETS,
        ensures
            final(self).wf(),
            final(self).same_setup(old(self)),
            final(self).tx_work() == old(self).tx_work(),
            final(self).rx_lanes() == old(self).rx_lanes(),
            final(self).turn() == old(self).turn(),
            final(self).buffer_work == old(self).buffer_work,
            final(self).packet_work == old(self).packet_work,
            final(self).deferred_buffer_work == old(self).deferred_buffer_work,
            final(self).deferred_packets == old(self).deferred_packets,
            final(sockets)@.len() == old(sockets)@.len(),
            forall|l: int|
                #![trigger final(self).lane_buffers(l)]
                0 <= l < final(self).lanes() ==> lane_refilled(
                    old(self).lane_buffers(l),
                    final(self).lane_buffers(l),
                    old(self).config_spec(),
                    old(sockets)@.len(),
                ),
            match r {
                Ok(progressed) => {
                    &&& exists|stages: Seq<Seq<S>>| #[trigger]
                        lanes_topped_up(
                            *old(self),
                            *final(self),
                            old(sockets)@,
                            final(sockets)@,
                            stages,
                        )
                    &&& progressed == refill_progress(*old(self), *final(self))
                },
                Err(TileError::Socket(error)) => exists|stages: Seq<Seq<S>>| #[trigger]
                    lanes_top_up_failed(
                        *old(self),
                        *final(self),
                        old(sockets)@,
                        final(sockets)@,
                        stages,
                        error,
                    ),
                Err(_) => false,
            },
    {
        let mut progressed = false;
        let mut lane: usize = 0;
        let ghost mut stages: Seq<Seq<S>> = seq![sockets@];
        while lane < self.tx_buffers.len()
            invariant
                lane <= self.tx_buffers@.len(),
                self.wf(),
                self.same_setup(old(self)),
                self.tx_work() == old(self).tx_work(),
                self.turn() == old(self).turn(),
                self.rx_lanes() == old(self).rx_lanes(),
                self.buffer_work == old(self).buffer_work,
                self.packet_work == old(self).packet_work,
                self.deferred_buffer_work == old(self).deferred_buffer_work,
                self.deferred_packets == old(self).deferred_packets,
                sockets@.len() == old(sockets)@.len(),
                0 < sockets@.len() <= MAX_TILE_SOCKETS,
                forall|l: int|
                    #![trigger self.lane_buffers(l)]
                    0 <= l < lane ==> lane_refilled(
                        old(self).lane_buffers(l),
                        self.lane_buffers(l),
                        old(self).config_spec(),
                        old(sockets)@.len(),
                    ),
                forall|l: int|
                    #![trigger self.lane_buffers(l)]
                    lane <= l < self.lanes() ==> self.lane_buffers(l) == old(self).lane_buffers(l),
                !progressed ==> forall|l: int|
                    #![trigger self.lane_buffers(l)]
                    0 <= l < lane ==> self.lane_buffers(l)@ == old(self).lane_buffers(l)@,
                progressed ==> exists|l: int|
                    0 <= l < lane && (#[trigger] self.lane_buffers(l))@ != old(self).lane_buffers(
                        l,
                    )@,
                stages.len() == lane + 1,
                stages[0] == old(sockets)@,
                stages[lane as int] == sockets@,
                forall|l: int|
                    #![trigger stages[l]]
                    0 <= l < lane ==> topped_up(
                        old(self).lane_buffers(l),
                        self.lane_buffers(l),
                        stages[l],
                        stages[l + 1],
                        old(self).config_spec(),
                    ),
            decreases self.tx_buffers@.len() - lane,
        {
            let ghost before = *self;
            let ghost stages_before = stages;
            let ghost asked = sockets@;
            let config = self.config;
            assert(self.tx_buffers@[lane as int].wf());
            assert(self.lane_buffers(lane as int) == old(self).lane_buffers(lane as int));
            let outcome = refill_lane(&mut self.tx_buffers[lane], sockets, config);
            proof {
                assert forall|l: int| 0 <= l < self.lanes() && l != lane implies
                    #[trigger] self.lane_buffers(l) == before.lane_buffers(l) by {}
                assert(lane_refilled(
                    old(self).lane_buffers(lane as int),
                    self.lane_buffers(lane as int),
                    old(self).config_spec(),
                    old(sockets)@.len(),
                ));
                assert forall|l: int| 0 <= l < self.lanes() implies (
                #[trigger] self.tx_buffers@[l]).wf() by {
                    if l != lane {
                        assert(before.tx_buffers@[l].wf());
                    }
                }
                assert forall|l: int|
                    #![trigger self.lane_buffers(l)]
                    lane < l < self.lanes() implies lane_refilled(
                    old(self).lane_buffers(l),
                    self.lane_buffers(l),
                    old(self).config_spec(),
                    old(sockets)@.len(),
                ) by {
                    assert(before.lane_buffers(l) == old(self).lane_buffers(l));
                    assert(before.tx_buffers@[l].wf());
                    before.tx_buffers@[l].lemma_bounded();
                }
            }
            match outcome {
                Ok(more) => {
                    proof {
                        assert(!more ==> self.lane_buffers(lane as int)@ =~= old(self).lane_buffers(
                            lane as int,
                        )@);
                        assert(more ==> self.lane_buffers(lane as int)@.len() > old(
                            self,
                        ).lane_buffers(lane as int)@.len());
                        if progressed {
                            let l = choose|l: int|
                                0 <= l < lane && (#[trigger] before.lane_buffers(l))@ != old(
                                    self,
                                ).lane_buffers(l)@;
                            assert(self.lane_buffers(l) == before.lane_buffers(l));
                        }
                        stages = stages.push(sockets@);
                        assert(topped_up(
                            old(self).lane_buffers(lane as int),
                            self.lane_buffers(lane as int),
                            asked,
                            sockets@,
                            old(self).config_spec(),
                        ));
                        assert forall|l: int|
                            #![trigger stages[l]]
                            0 <= l < lane + 1 implies topped_up(
                            old(self).lane_buffers(l),
                            self.lane_buffers(l),
                            stages[l],
                            stages[l + 1],
                            old(self).config_spec(),
                        ) by {
                            if l < lane {
                                assert(stages[l] == stages_before[l]);
                                assert(stages[l + 1] == stages_before[l + 1]);
                                assert(self.lane_buffers(l) == before.lane_buffers(l));
                            }
                        }
                    }
                    if more {
                        progressed = true;
                    }
                },
                Err(error) => {
                    proof {
                        assert forall|l: int|
                            #![trigger stages[l]]
                            0 <= l < lane implies topped_up(
                            old(self).lane_buffers(l),
                            self.lane_buffers(l),
                            stages[l],
                            stages[l + 1],
                            old(self).config_spec(),
                        ) by {
                            assert(self.lane_buffers(l) == before.lane_buffers(l));
                        }
                        assert(lanes_top_up_failed(
                            *old(self),
                            *self,
                            old(sockets)@,
                            sockets@,
                            stages,
                            error->Socket_0,
                        ));
                    }
                    return Err(error);
                },
            }
            lane = lane + 1;
        }
        assert(lanes_topped_up(*old(self), *self, old(sockets)@, sockets@, stages));
        Ok(progressed)
    }

    /// Moves the work of all lanes to the sockets' pending packets.
    fn drain_all_lane_work(&mut self, can_retarget: bool) -> (r: bool)
        requires
            old(self).wf(),
        ensures
            final(self).wf(),
            final(self).lanes() == old(self).lanes(),
            final(self).config_spec() == old(self).config_spec(),
            final(self).classifier_spec() == old(self).classifier_spec(),
            final(self).taken_lanes() == old(self).taken_lanes(),
            final(self).is_started() == old(self).is_started(),
            final(self).rx_lanes() == old(self).rx_lanes(),
            final(self).pending_spec().len() == old(self).pending_spec().len(),
            final(self).tx_buffers == old(self).tx_buffers,
            final(self).received == old(self).received,
            forall|b: int|
                0 <= b < final(self).pending_spec().len() ==> old(self).pending_spec()[b]@.is_prefix_of(
                    (#[trigger] final(self).pending_spec()[b])@,
                ),
            turns_fit(
                old(self).turn(),
                old(self).tx_work() + 2 * old(self).lanes(),
                old(self).pending_spec().len(),
            ) ==> final(self).lanes_stuck(
                opened(old(self).pending_spec()),
                final(self).pending_spec(),
            ),
            exists|dropped: nat|
                {
                    &&& final(self).stats_spec() == (TileStats {
                        tx_drops: #[trigger] bumped(old(self).stats_spec().tx_drops, dropped),
                        ..old(self).stats_spec()
                    })
                    &&& final(self).tx_work() + dropped == old(self).tx_work()
                    &&& !r ==> dropped == 0
                },
            all_work_moved(
                *old(self),
                *final(self),
                old(self).pending_spec(),
                final(self).pending_spec(),
                can_retarget,
            ),
            r == (final(self).backlog_total() < old(self).backlog_total()),
            forall|l: int|
                0 <= l < final(self).lanes() ==> {
                    &&& (#[trigger] final(self).lane_buffer_work(l)).spec_capacity() == old(self).lane_buffer_work(l).spec_capacity()
                    &&& final(self).lane_packet_work(l).spec_capacity() == old(self).lane_packet_work(l).spec_capacity()
                },
    {
        self.admission.reset(&self.pending);
        let ghost start = *self;
        assert forall|l: int|
            #![trigger self.buffer_work@[l]]
            0 <= l < self.lanes() implies lane_work_ok::<UdpTxBuffer<S>, TileTxBufferWork<S>>(
            self.deferred_buffer_work@[l],
            self.buffer_work@[l],
        ) by {
            assert(old(self).buffer_work@[l].wf());
        }
        let ghost fits = turns_fit(
            old(self).turn(),
            old(self).tx_work() + 2 * old(self).lanes(),
            old(self).pending_spec().len(),
        );
        let ghost buffers = work_total(start.deferred_buffer_work@, start.buffer_work@);
        let ghost packets = work_total(start.deferred_packets@, start.packet_work@);
        let ghost lanes = start.lanes();
        let ghost sockets = start.pending@.len();
        proof {
            if fits {
                lemma_turns_split(start.turn() as int, buffers, packets, start.tx_work(), lanes, sockets);
            }
        }
        let moved_buffers = drain_lane_work(
            &mut self.buffer_work,
            &mut self.deferred_buffer_work,
            &mut self.pending,
            &self.admission,
            can_retarget,
            self.config.batch_size,
            &mut self.next_tx_socket,
            &mut self.stats.tx_drops,
        );
        let ghost middle = *self;
        proof {
            if fits {
                let moved = buffers - work_total(
                    middle.deferred_buffer_work@,
                    middle.buffer_work@,
                );
                assert((moved + lanes) * sockets <= (buffers + lanes) * sockets)
                    by (nonlinear_arith)
                    requires
                        moved <= buffers,
                ;
            }
        }
        assert forall|l: int|
            #![trigger self.packet_work@[l]]
            0 <= l < self.lanes() implies lane_work_ok::<UdpTxBuffer<S>, TileTxPacket<S>>(
            self.deferred_packets@[l],
            self.packet_work@[l],
        ) by {
            assert(old(self).packet_work@[l].wf());
        }
        let moved_packets = drain_lane_work(
            &mut self.packet_work,
            &mut self.deferred_packets,
            &mut self.pending,
            &self.admission,
            can_retarget,
            self.config.batch_size,
            &mut self.next_tx_socket,
            &mut self.stats.tx_drops,
        );
        proof {
            let first = choose|dropped: nat|
                {
                    &&& middle.stats.tx_drops == #[trigger] bumped(start.stats.tx_drops, dropped)
                    &&& list_total(middle.pending@) + work_total(
                        middle.deferred_buffer_work@,
                        middle.buffer_work@,
                    ) + dropped == list_total(start.pending@) + work_total(
                        start.deferred_buffer_work@,
                        start.buffer_work@,
                    )
                    &&& moved_buffers == (work_total(
                        middle.deferred_buffer_work@,
                        middle.buffer_work@,
                    ) < work_total(start.deferred_buffer_work@, start.buffer_work@))
                };
            let second = choose|dropped: nat|
                {
                    &&& self.stats.tx_drops == #[trigger] bumped(middle.stats.tx_drops, dropped)
                    &&& list_total(self.pending@) + work_total(
                        self.deferred_packets@,
                        self.packet_work@,
                    ) + dropped == list_total(middle.pending@) + work_total(
                        middle.deferred_packets@,
                        middle.packet_work@,
                    )
                    &&& moved_packets == (work_total(self.deferred_packets@, self.packet_work@)
                        < work_total(middle.deferred_packets@, middle.packet_work@))
                };
            assert forall|b: int|
                0 <= b < self.pending_spec().len() implies old(self).pending_spec()[b]@.is_prefix_of(
                (#[trigger] self.pending_spec()[b])@,
            ) by {
                assert(middle.pending@[b]@.is_prefix_of(self.pending@[b]@));
                assert(start.pending@[b]@.is_prefix_of(middle.pending@[b]@));
            }
            if fits {
                assert(self.admission@ =~= opened(old(self).pending_spec()));
                assert forall|lane: int|
                    #![trigger self.buffer_backlog(lane)]
                    #![trigger self.packet_backlog(lane)]
                    0 <= lane < self.lanes() implies {
                    &&& lane_stuck::<UdpTxBuffer<S>, TileTxBufferWork<S>>(
                        self.buffer_backlog(lane),
                        opened(old(self).pending_spec()),
                        tx_work_capacity_spec(self.config_spec()) as nat,
                        self.pending_spec(),
                    )
                    &&& lane_stuck::<UdpTxBuffer<S>, TileTxPacket<S>>(
                        self.packet_backlog(lane),
                        opened(old(self).pending_spec()),
                        tx_work_capacity_spec(self.config_spec()) as nat,
                        self.pending_spec(),
                    )
                } by {
                    assert(middle.buffer_work@[lane] == self.buffer_work@[lane]);
                    assert(self.packet_work@[lane] == self.packet_work@[lane]);
                    assert forall|b: int| 0 <= b < middle.pending@.len() implies
                        middle.pending@[b]@.len() <= (#[trigger] self.pending@[b])@.len() by {
                        assert(middle.pending@[b]@.is_prefix_of(self.pending@[b]@));
                    }
                    lemma_lane_stays_stuck::<UdpTxBuffer<S>, TileTxBufferWork<S>>(
                        self.buffer_backlog(lane),
                        self.admission@,
                        self.admission.limit(),
                        middle.pending@,
                        self.pending@,
                    );
                }
            }
            lemma_bumped_adds(start.stats.tx_drops, first, second);
            assert(self.stats.tx_drops == bumped(old(self).stats_spec().tx_drops, first + second));
            assert(self.admission@ =~= opened(old(self).pending_spec()));
            assert(backlogs(start.deferred_buffer_work@, start.buffer_work@)
                =~= old(self).buffer_backlogs());
            assert(backlogs(self.deferred_buffer_work@, self.buffer_work@)
                =~= self.buffer_backlogs());
            assert(backlogs(start.deferred_packets@, start.packet_work@)
                =~= old(self).packet_backlogs());
            assert(backlogs(self.deferred_packets@, self.packet_work@) =~= self.packet_backlogs());
            assert(work_moved::<UdpTxBuffer<S>, TileTxBufferWork<S>>(
                old(self).buffer_backlogs(),
                self.buffer_backlogs(),
                old(self).pending_spec(),
                middle.pending_spec(),
                old(self).stats_spec().tx_drops,
                middle.stats_spec().tx_drops,
                old(self).turn(),
                middle.turn(),
                opened(old(self).pending_spec()),
                tx_work_capacity_spec(old(self).config_spec()) as nat,
                old(self).config_spec().batch_size,
                can_retarget,
            ));
        }
        moved_buffers || moved_packets
    }

    /// Marks the tile as started; a second start fails.
    pub fn start(&mut self) -> (r: Result<(), TileError>)
        requires
            old(self).wf(),
        ensures
            final(self).wf(),
            final(self).is_started(),
            final(self).lanes() == old(self).lanes(),
            final(self).config_spec() == old(self).config_spec(),
            final(self).classifier_spec() == old(self).classifier_spec(),
            final(self).stats_spec() == old(self).stats_spec(),
            final(self).taken_lanes() == old(self).taken_lanes(),
            final(self).rx_lanes() == old(self).rx_lanes(),
            final(self).pending_spec() == old(self).pending_spec(),
            final(self).tx_work() == old(self).tx_work(),
            final(self).same_lanes(old(self), -1, -1, -1),
            r == (if old(self).is_started() {
                Err::<(), TileError>(TileError::AlreadyStarted)
            } else {
                Ok::<(), TileError>(())
            }),
    {
        if self.started {
            return Err(TileError::AlreadyStarted);
        }
        self.started = true;
        Ok(())
    }

    /// Prepares the tile for its sockets, none of which has anything pending,
    /// and returns the worker affinity that they agree on.
    pub fn attach_sockets(&mut self, sockets: &[S]) -> (r: Result<TileAffinity, TileError>)
        requires
            old(self).wf(),
            list_total(old(self).pending_spec()) == 0,
        ensures
            final(self).wf(),
            final(self).lanes() == old(self).lanes(),
            final(self).config_spec() == old(self).config_spec(),
            final(self).stats_spec() == old(self).stats_spec(),
            final(self).taken_lanes() == old(self).taken_lanes(),
            final(self).is_started() == old(self).is_started(),
            final(self).rx_lanes() == old(self).rx_lanes(),
            final(self).tx_work() == old(self).tx_work(),
            final(self).classifier_spec() == old(self).classifier_spec(),
            final(self).same_lanes(old(self), -1, -1, -1),
            if sockets@.len() == 0 {
                r == Err::<TileAffinity, TileError>(TileError::EmptySocketSet)
            } else if sockets@.len() > MAX_TILE_SOCKETS {
                &&& r matches Err(error)
                &&& error matches TileError::TooManySockets { count }
                &&& count == sockets@.len()
            } else {
                exists|hints: Seq<QueueAffinity>|
                    {
                        &&& hints.len() == sockets@.len()
                        &&& forall|i: int|
                            0 <= i < hints.len() ==> call_ensures(
                                S::worker_affinity,
                                (&sockets@[i],),
                                #[trigger] hints[i],
                            )
                        &&& r == #[trigger] combined_affinity(hints)
                    }
            },
            if r is Ok {
                &&& final(self).pending_spec().len() == sockets@.len()
                &&& list_total(final(self).pending_spec()) == 0
            } else {
                *final(self) == *old(self)
            },
    {
        let socket_count: usize = sockets.len();
        if socket_count == 0 {
            return Err(TileError::EmptySocketSet);
        }
        if socket_count > MAX_TILE_SOCKETS {
            return Err(TileError::TooManySockets { count: socket_count });
        }
        let affinity = match validate_socket_affinity(sockets) {
            Ok(affinity) => affinity,
            Err(error) => {
                return Err(error);
            },
        };
        let mut pending: Vec<PendingTx<S>> = Vec::new();
        while pending.len() < socket_count
            invariant
                pending@.len() <= socket_count,
                list_total(pending@) == 0,
                forall|b: int| 0 <= b < pending@.len() ==> (#[trigger] pending@[b])@.len() == 0,
            decreases socket_count - pending@.len(),
        {
            let ghost before = pending@;
            pending.push(Vec::new());
            proof {
                assert(pending@.drop_last() =~= before);
            }
        }
        self.pending = pending;
        self.admission = TxAdmission::new(socket_count, self.config);
        Ok(affinity)
    }

    /// Sends what is pending. Sent packets leave the pending lists.
    fn flush(&mut self, sockets: &mut [S]) -> (r: Result<bool, TileError>)
        requires
            old(self).wf(),
        ensures
            final(self).wf(),
            final(self).lanes() == old(self).lanes(),
            final(self).config_spec() == old(self).config_spec(),
            final(self).classifier_spec() == old(self).classifier_spec(),
            final(self).taken_lanes() == old(self).taken_lanes(),
            final(self).is_started() == old(self).is_started(),
            final(self).rx_lanes() == old(self).rx_lanes(),
            final(self).pending_spec().len() == old(self).pending_spec().len(),
            final(self).tx_buffers == old(self).tx_buffers,
            final(self).buffer_work == old(self).buffer_work,
            final(self).packet_work == old(self).packet_work,
            final(sockets)@.len() == old(sockets)@.len(),
            exists|sent: nat|
                {
                    &&& final(self).stats_spec() == (TileStats {
                        tx_packets: #[trigger] bumped(old(self).stats_spec().tx_packets, sent),
                        ..old(self).stats_spec()
                    })
                    &&& final(self).tx_work() + sent == old(self).tx_work()
                    &&& r matches Ok(progressed) ==> progressed == (sent > 0)
                },
            exists|sent: Seq<nat>| #[trigger]
                flushed(old(self).pending_spec(), final(self).pending_spec(), sent),
            final(self).turn() == old(self).turn(),
            final(self).buffer_work == old(self).buffer_work,
            final(self).packet_work == old(self).packet_work,
            final(self).deferred_buffer_work == old(self).deferred_buffer_work,
            final(self).deferred_packets == old(self).deferred_packets,
            r is Ok && old(self).pending_spec().len() <= old(sockets)@.len() ==> all_declined(
                final(sockets)@,
                final(self).pending_spec(),
            ),
            exists|done: int| #[trigger]
                sockets_flushed(
                    old(sockets)@,
                    final(sockets)@,
                    old(self).pending_spec(),
                    final(self).pending_spec(),
                    flush_outcome(r),
                    done,
                ),
            r matches Err(error) ==> error is Send,
    {
        let outcome = flush_pending_tx(sockets, &mut self.pending, &mut self.stats.tx_packets);
        proof {
            let sent = choose|sent: Seq<nat>|
                {
                    &&& #[trigger] flushed(old(self).pending@, self.pending@, sent)
                    &&& self.stats.tx_packets == bumped(
                        old(self).stats.tx_packets,
                        count_sum(sent),
                    )
                    &&& outcome matches Ok(progressed) ==> progressed == (count_sum(sent) > 0)
                };
            lemma_list_total_flushed(old(self).pending@, self.pending@, sent);
            assert(flushed(old(self).pending_spec(), self.pending_spec(), sent));
            assert forall|b: int| 0 <= b < self.pending@.len() implies (
            #[trigger] self.pending@[b])@.len() <= self.admission.limit() by {
                assert(sent[b] <= old(self).pending@[b]@.len());
            }
            assert(self.stats.tx_packets == bumped(
                old(self).stats_spec().tx_packets,
                count_sum(sent),
            ));
            let done = choose|done: int| #[trigger]
                sockets_flushed(
                    old(sockets)@,
                    sockets@,
                    old(self).pending@,
                    self.pending@,
                    flush_outcome(outcome),
                    done,
                );
            assert(sockets_flushed(
                old(sockets)@,
                sockets@,
                old(self).pending_spec(),
                self.pending_spec(),
                flush_outcome(outcome),
                done,
            ));
            if outcome is Ok && old(self).pending@.len() <= old(sockets)@.len() {
                assert forall|b: int| 0 <= b < self.pending_spec().len() implies (
                #[trigger] self.pending_spec()[b])@.len() == 0 || declined(
                    sockets@[b],
                    self.pending_spec()[b]@,
                ) by {
                    assert(self.pending@[b] == self.pending_spec()[b]);
                    law_flush_leaves_what_was_refused(
                        old(sockets)@[b],
                        sockets@[b],
                        old(self).pending@[b]@,
                        self.pending@[b]@,
                        Ok::<(), SendError>(()),
                    );
                }
            }
        }
        outcome
    }

    /// Receives from every socket for the lanes.
    fn receive(&mut self, sockets: &mut [S]) -> (r: Result<bool, TileError>)
        requires
            old(self).wf(),
            old(sockets)@.len() <= MAX_TILE_SOCKETS,
        ensures
            final(self).wf(),
            final(self).lanes() == old(self).lanes(),
            final(self).config_spec() == old(self).config_spec(),
            final(self).taken_lanes() == old(self).taken_lanes(),
            final(self).is_started() == old(self).is_started(),
            final(self).pending_spec() == old(self).pending_spec(),
            final(self).tx_buffers == old(self).tx_buffers,
            final(self).tx_work() == old(self).tx_work(),
            final(self).turn() == old(self).turn(),
            final(sockets)@.len() == old(sockets)@.len(),
            final(self).stats_spec().tx_drops == old(self).stats_spec().tx_drops,
            final(self).stats_spec().tx_packets == old(self).stats_spec().tx_packets,
            final(self).buffer_work == old(self).buffer_work,
            final(self).packet_work == old(self).packet_work,
            final(self).deferred_buffer_work == old(self).deferred_buffer_work,
            final(self).deferred_packets == old(self).deferred_packets,
            receive_ran(*old(self), *final(self), old(sockets)@, final(sockets)@, r),
            final(self).classifier_spec() == old(self).classifier_spec(),
            r is Ok ==> forall|lane: int|
                0 <= lane < final(self).lanes() ==> (#[trigger] final(self).rx_lanes().collecting(
                    lane,
                )).len() == 0,
    {
        let outcome = recv_from_sockets(
            sockets,
            &mut self.received,
            &mut self.rx,
            &self.classifier,
            &mut self.stats,
        );
        proof {
            let (batches, decisions, sources, overflow) = choose|
                batches: Seq<Seq<UdpReceive<UdpRxBuffer<S>, S::RecvMeta>>>,
                decisions: Seq<Seq<IngressDecision>>,
                sources: Seq<SocketIndex>,
                overflow: nat,
            |
                {
                    &&& #[trigger] received_accounted(
                        old(self).rx,
                        self.rx,
                        old(self).stats,
                        self.stats,
                        batches,
                        decisions,
                        sources,
                        overflow,
                        outcome is Ok,
                    )
                    &&& batches_received(
                        old(sockets)@,
                        sockets@,
                        self.classifier,
                        old(self).rx.lanes(),
                        batches,
                        decisions,
                        sources,
                    )
                    &&& match outcome {
                        Ok(progressed) => batches.len() == old(sockets)@.len() && progressed == (
                        stream_total(batches) > 0),
                        Err(TileError::Socket(error)) => receive_stopped(
                            old(sockets)@,
                            sockets@,
                            batches.len() as int,
                            error,
                        ),
                        Err(_) => false,
                    }
                };
            assert(received_accounted(
                old(self).rx_lanes(),
                self.rx_lanes(),
                old(self).stats_spec(),
                self.stats_spec(),
                batches,
                decisions,
                sources,
                overflow,
                outcome is Ok,
            ));
        }
        outcome
    }

    /// Reclaims completions, sends what is pending, moves the lanes' work to the sockets
    /// and sends again.
    #[verifier::rlimit(40)]
    fn transmit_pass(&mut self, sockets: &mut [S], can_retarget: bool) -> (r: Result<
        bool,
        TileError,
    >)
        requires
            old(self).wf(),
            old(self).pending_spec().len() == old(sockets)@.len(),
        ensures
            final(self).wf(),
            final(self).lanes() == old(self).lanes(),
            final(self).config_spec() == old(self).config_spec(),
            final(self).taken_lanes() == old(self).taken_lanes(),
            final(self).is_started() == old(self).is_started(),
            final(self).classifier_spec() == old(self).classifier_spec(),
            final(self).pending_spec().len() == old(self).pending_spec().len(),
            final(self).rx_lanes() == old(self).rx_lanes(),
            final(self).tx_buffers == old(self).tx_buffers,
            final(self).stats_spec().classifier_drops == old(self).stats_spec().classifier_drops,
            final(self).stats_spec().rx_queue_drops == old(self).stats_spec().rx_queue_drops,
            final(sockets)@.len() == old(sockets)@.len(),
            exists|sent: nat, dropped: nat|
                {
                    &&& #[trigger] transmit_accounted(*old(self), *final(self), sent, dropped)
                    &&& r == Ok::<bool, TileError>(false) ==> sent == 0 && dropped == 0
                    &&& match r {
                        Ok(progressed) => transmit_ended(
                            *old(self),
                            *final(self),
                            old(sockets)@,
                            final(sockets)@,
                            can_retarget,
                            sent,
                            progressed,
                        ),
                        Err(error) => transmit_stopped(
                            *old(self),
                            *final(self),
                            old(sockets)@,
                            final(sockets)@,
                            can_retarget,
                            sent,
                            error,
                        ),
                    }
                },
    {
        let ghost start = *self;
        proof {
            lemma_bumped_adds(start.stats.tx_packets, 0, 0);
            lemma_bumped_adds(start.stats.tx_drops, 0, 0);
            assert(transmit_accounted(start, *self, 0, 0));
        }
        let ghost before_reclaim = sockets@;
        let reclaimed = drain_socket_completions(sockets);
        let ghost given = sockets@;
        let completed = match reclaimed {
            Ok(progressed) => progressed,
            Err(error) => {
                return Err(error);
            },
        };
        let ghost counts = choose|counts: Seq<usize>|
            {
                &&& #[trigger] sockets_reclaimed(before_reclaim, given, counts)
                &&& completed == any_completed(counts)
            };
        let flushed_first = self.flush(sockets);
        let ghost sent_first = choose|sent: nat|
            {
                &&& self.stats_spec() == (TileStats {
                    tx_packets: #[trigger] bumped(start.stats_spec().tx_packets, sent),
                    ..start.stats_spec()
                })
                &&& self.tx_work() + sent == start.tx_work()
                &&& flushed_first matches Ok(progressed) ==> progressed == (sent > 0)
            };
        let ghost first = self.pending_spec();
        let ghost between = sockets@;
        assert(transmit_accounted(start, *self, sent_first, 0));
        proof {
            assert(self.buffer_backlogs() =~= start.buffer_backlogs());
            assert(self.packet_backlogs() =~= start.packet_backlogs());
            assert(sent_first == packets_left(start.pending_spec(), first));
        }
        let sent_before = match flushed_first {
            Ok(progressed) => progressed,
            Err(error) => {
                proof {
                    let done = choose|done: int| #[trigger]
                        sockets_flushed(
                            given,
                            between,
                            start.pending_spec(),
                            first,
                            flush_outcome(flushed_first),
                            done,
                        );
                    assert(first_send_stopped(
                        start,
                        *self,
                        before_reclaim,
                        given,
                        between,
                        counts,
                        done,
                        sent_first,
                        error->Send_0,
                    ));
                }
                return Err(error);
            },
        };
        let ghost drained = *self;
        proof {
            if turns_fit(start.turn(), start.tx_work() + 2 * start.lanes(), first.len()) {
                assert((drained.tx_work() + 2 * start.lanes()) * first.len() <= (start.tx_work() + 2
                    * start.lanes()) * first.len()) by (nonlinear_arith)
                    requires
                        drained.tx_work() <= start.tx_work(),
                ;
            }
        }
        let moved = self.drain_all_lane_work(can_retarget);
        let ghost dropped = choose|dropped: nat|
            {
                &&& self.stats_spec() == (TileStats {
                    tx_drops: #[trigger] bumped(drained.stats_spec().tx_drops, dropped),
                    ..drained.stats_spec()
                })
                &&& self.tx_work() + dropped == drained.tx_work()
                &&& !moved ==> dropped == 0
            };
        let ghost flushing = *self;
        let ghost offered = self.pending_spec();
        let flushed_second = self.flush(sockets);
        let ghost sent_second = choose|sent: nat|
            {
                &&& self.stats_spec() == (TileStats {
                    tx_packets: #[trigger] bumped(flushing.stats_spec().tx_packets, sent),
                    ..flushing.stats_spec()
                })
                &&& self.tx_work() + sent == flushing.tx_work()
                &&& flushed_second matches Ok(progressed) ==> progressed == (sent > 0)
            };
        let ghost end = sockets@;
        let ghost sent = sent_first + sent_second;
        proof {
            lemma_bumped_adds(start.stats.tx_packets, sent_first, sent_second);
            assert(transmit_accounted(start, *self, sent, dropped));
            assert(sent_second == packets_left(offered, self.pending_spec()));
            assert(start.buffer_backlogs() =~= drained.buffer_backlogs());
            assert(start.packet_backlogs() =~= drained.packet_backlogs());
            assert(self.buffer_backlogs() =~= flushing.buffer_backlogs());
            assert(self.packet_backlogs() =~= flushing.packet_backlogs());
            assert(all_work_moved(start, *self, first, offered, can_retarget));
        }
        let sent_after = match flushed_second {
            Ok(progressed) => progressed,
            Err(error) => {
                proof {
                    let done = choose|done: int| #[trigger]
                        sockets_flushed(
                            between,
                            end,
                            offered,
                            self.pending_spec(),
                            flush_outcome(flushed_second),
                            done,
                        );
                    assert(second_send_stopped(
                        start,
                        *self,
                        before_reclaim,
                        given,
                        between,
                        end,
                        counts,
                        first,
                        offered,
                        can_retarget,
                        done,
                        sent,
                        error->Send_0,
                    ));
                }
                return Err(error);
            },
        };
        proof {
            assert forall|lane: int|
                0 <= lane < self.lanes() implies #[trigger] self.buffer_backlog(lane)
                == flushing.buffer_backlog(lane) && self.packet_backlog(lane)
                == flushing.packet_backlog(lane) by {}
            if turns_fit(start.turn(), start.tx_work() + 2 * start.lanes(), first.len()) {
                assert(flushing.lanes_stuck(opened(first), offered));
                assert(self.config_spec() == flushing.config_spec());
                assert forall|lane: int|
                    #![trigger self.buffer_backlog(lane)]
                    #![trigger self.packet_backlog(lane)]
                    0 <= lane < self.lanes() implies {
                    &&& lane_stuck::<UdpTxBuffer<S>, TileTxBufferWork<S>>(
                        self.buffer_backlog(lane),
                        opened(first),
                        tx_work_capacity_spec(self.config_spec()) as nat,
                        offered,
                    )
                    &&& lane_stuck::<UdpTxBuffer<S>, TileTxPacket<S>>(
                        self.packet_backlog(lane),
                        opened(first),
                        tx_work_capacity_spec(self.config_spec()) as nat,
                        offered,
                    )
                } by {
                    assert(self.buffer_backlog(lane) == flushing.buffer_backlog(lane));
                }
            }
            assert(transmit_passed(
                start,
                *self,
                given,
                between,
                end,
                first,
                offered,
                can_retarget,
            ));
            assert(transmit_done(
                start,
                *self,
                before_reclaim,
                given,
                between,
                end,
                counts,
                first,
                offered,
                can_retarget,
                sent,
            ));
        }
        Ok(completed || sent_before || moved || sent_after)
    }

    /// Runs one pass over the sockets.
    #[verifier::rlimit(60)]
    fn run_pass(&mut self, sockets: &mut [S], can_retarget: bool) -> (r: Result<bool, TileError>)
        requires
            old(self).wf(),
            0 < old(sockets)@.len() <= MAX_TILE_SOCKETS,
            old(self).pending_spec().len() == old(sockets)@.len(),
        ensures
            final(self).wf(),
            final(self).lanes() == old(self).lanes(),
            final(self).config_spec() == old(self).config_spec(),
            final(self).taken_lanes() == old(self).taken_lanes(),
            final(self).is_started() == old(self).is_started(),
            final(self).classifier_spec() == old(self).classifier_spec(),
            final(self).pending_spec().len() == old(self).pending_spec().len(),
            final(sockets)@.len() == old(sockets)@.len(),
            exists|sent: nat, dropped: nat|
                {
                    &&& #[trigger] transmit_accounted(*old(self), *final(self), sent, dropped)
                    &&& r == Ok::<bool, TileError>(false) ==> sent == 0 && dropped == 0
                    &&& pass_ran(
                        *old(self),
                        *final(self),
                        old(sockets)@,
                        final(sockets)@,
                        can_retarget,
                        sent,
                        r,
                    )
                },
            r is Ok ==> forall|lane: int|
                0 <= lane < final(self).lanes() ==> (#[trigger] final(self).rx_lanes().collecting(
                    lane,
                )).len() == 0,
            forall|l: int|
                #![trigger final(self).lane_buffers(l)]
                0 <= l < final(self).lanes() ==> lane_refilled(
                    old(self).lane_buffers(l),
                    final(self).lane_buffers(l),
                    old(self).config_spec(),
                    old(sockets)@.len(),
                ),
    {
        let ghost start = *self;
        proof {
            start.lemma_not_refilled(old(sockets)@.len());
        }
        let transmitted = self.transmit_pass(sockets, can_retarget);
        let ghost second = *self;
        let ghost end = sockets@;
        let ghost (sent, dropped) = choose|sent: nat, dropped: nat|
            {
                &&& #[trigger] transmit_accounted(start, second, sent, dropped)
                &&& transmitted == Ok::<bool, TileError>(false) ==> sent == 0 && dropped == 0
                &&& match transmitted {
                    Ok(progressed) => transmit_ended(
                        start,
                        second,
                        old(sockets)@,
                        end,
                        can_retarget,
                        sent,
                        progressed,
                    ),
                    Err(error) => transmit_stopped(
                        start,
                        second,
                        old(sockets)@,
                        end,
                        can_retarget,
                        sent,
                        error,
                    ),
                }
            };
        assert forall|l: int| 0 <= l < start.lanes() implies #[trigger] second.lane_buffers(l)
            == start.lane_buffers(l) by {}
        let transmitted = match transmitted {
            Ok(progressed) => progressed,
            Err(error) => {
                assert(pass_ran(
                    start,
                    *self,
                    old(sockets)@,
                    sockets@,
                    can_retarget,
                    sent,
                    Err::<bool, TileError>(error),
                ));
                return Err(error);
            },
        };
        let refilled = self.refill_tx_buffers(sockets);
        let ghost receiving = *self;
        let ghost asked = sockets@;
        proof {
            assert(transmit_accounted(start, receiving, sent, dropped));
            lemma_transmit_ended_stays(
                start,
                second,
                receiving,
                old(sockets)@,
                end,
                can_retarget,
                sent,
                transmitted,
            );
        }
        let refilled = match refilled {
            Ok(progressed) => progressed,
            Err(error) => {
                proof {
                    let stages = choose|stages: Seq<Seq<S>>| #[trigger]
                        lanes_top_up_failed(second, receiving, end, asked, stages, error->Socket_0);
                    lemma_top_up_failed_before(
                        start,
                        second,
                        receiving,
                        end,
                        asked,
                        stages,
                        error->Socket_0,
                    );
                    let result = Err::<bool, TileError>(error);
                    assert(lanes_served(start, *self, end, sockets@, transmitted, result));
                    assert(pass_ran(
                        start,
                        *self,
                        old(sockets)@,
                        sockets@,
                        can_retarget,
                        sent,
                        result,
                    ));
                }
                return Err(error);
            },
        };
        let outcome = self.receive(sockets);
        let result = match outcome {
            Ok(progressed) => Ok(transmitted || refilled || progressed),
            Err(error) => Err(error),
        };
        proof {
            assert(transmit_accounted(start, *self, sent, dropped));
            assert forall|l: int| 0 <= l < start.lanes() implies {
                &&& #[trigger] self.lane_buffers(l) == receiving.lane_buffers(l)
                &&& second.lane_buffers(l) == start.lane_buffers(l)
            } by {}
            assert forall|l: int|
                #![trigger self.lane_buffers(l)]
                0 <= l < self.lanes() implies lane_refilled(
                start.lane_buffers(l),
                self.lane_buffers(l),
                start.config_spec(),
                old(sockets)@.len(),
            ) by {
                assert(receiving.lane_buffers(l) == self.lane_buffers(l));
            }
            lemma_transmit_ended_stays(
                start,
                receiving,
                *self,
                old(sockets)@,
                end,
                can_retarget,
                sent,
                transmitted,
            );
            let stages = choose|stages: Seq<Seq<S>>| #[trigger]
                lanes_topped_up(second, receiving, end, asked, stages);
            assert(lanes_topped_up(start, *self, end, asked, stages)) by {
                assert forall|l: int|
                    #![trigger stages[l]]
                    0 <= l < start.lanes() implies topped_up(
                    start.lane_buffers(l),
                    self.lane_buffers(l),
                    stages[l],
                    stages[l + 1],
                    start.config_spec(),
                ) by {
                    assert(receiving.lane_buffers(l) == self.lane_buffers(l));
                    assert(second.lane_buffers(l) == start.lane_buffers(l));
                }
            }
            lemma_receive_ran_before(start, receiving, *self, asked, sockets@, outcome);
            lemma_refill_progress_same(start, second, receiving, *self);
            assert(lanes_served(start, *self, end, sockets@, transmitted, result));
            assert(pass_ran(
                start,
                *self,
                old(sockets)@,
                sockets@,
                can_retarget,
                sent,
                result,
            ));
        }
        result
    }

    /// Runs one pass of the worker: reclaims completions, sends what is pending,
    /// moves the lanes' work to the sockets and sends again, tops up the lanes'
    /// transmit buffers, and receives.
    ///
    /// Nothing is lost on the way, also where a socket fails: every packet is
    /// still inside the tile, sent, or counted as dropped. The result says
    /// whether anything was done.
    pub fn poll_once<M: UdpSocketSet<Socket = S>>(&mut self, set: &mut M) -> (r: Result<
        bool,
        TileError,
    >)
        requires
            old(self).wf(),
            0 < old(set).sockets().len() <= MAX_TILE_SOCKETS,
            old(self).pending_spec().len() == old(set).sockets().len(),
        ensures
            final(self).wf(),
            final(self).lanes() == old(self).lanes(),
            final(self).config_spec() == old(self).config_spec(),
            final(self).taken_lanes() == old(self).taken_lanes(),
            final(self).is_started() == old(self).is_started(),
            final(self).classifier_spec() == old(self).classifier_spec(),
            final(self).pending_spec().len() == old(self).pending_spec().len(),
            final(set).sockets().len() == old(set).sockets().len(),
            exists|
                kept: &mut M,
                made: bool,
                can_retarget: bool,
                sent: nat,
                dropped: nat,
                passed: Result<bool, TileError>,
            |
                {
                    &&& #[trigger] call_ensures(M::poll_maintenance, (kept,), made)
                    &&& *kept == *old(set)
                    &&& call_ensures(
                        M::can_transmit_from_any_socket,
                        (&*final(kept),),
                        can_retarget,
                    )
                    &&& #[trigger] pass_ran(
                        *old(self),
                        *final(self),
                        final(kept).sockets(),
                        final(set).sockets(),
                        can_retarget,
                        sent,
                        passed,
                    )
                    &&& #[trigger] transmit_accounted(*old(self), *final(self), sent, dropped)
                    &&& match passed {
                        Ok(progressed) => r == Ok::<bool, TileError>(made || progressed),
                        Err(error) => r == Err::<bool, TileError>(error),
                    }
                    &&& r == Ok::<bool, TileError>(false) ==> sent == 0 && dropped == 0
                },
            r is Ok ==> forall|lane: int|
                0 <= lane < final(self).lanes() ==> (#[trigger] final(self).rx_lanes().collecting(
                    lane,
                )).len() == 0,
            forall|l: int|
                #![trigger final(self).lane_buffers(l)]
                0 <= l < final(self).lanes() ==> lane_refilled(
                    old(self).lane_buffers(l),
                    final(self).lane_buffers(l),
                    old(self).config_spec(),
                    old(set).sockets().len(),
                ),
    {
        let maintained = set.poll_maintenance();
        let ghost ready = *set;
        assert(exists|kept: &mut M|
            {
                &&& #[trigger] call_ensures(M::poll_maintenance, (kept,), maintained)
                &&& *kept == *old(set)
                &&& *final(kept) == ready
            });
        let can_retarget = set.can_transmit_from_any_socket();
        assert(call_ensures(M::can_transmit_from_any_socket, (&ready,), can_retarget));
        let sockets = set.sockets_mut();
        let outcome = self.run_pass(sockets, can_retarget);
        match outcome {
            Ok(progressed) => Ok(maintained || progressed),
            Err(error) => Err(error),
        }
    }

    proof fn lemma_not_refilled(&self, sockets: nat)
        requires
            self.wf(),
        ensures
            forall|l: int|
                #![trigger self.lane_buffers(l)]
                0 <= l < self.lanes() ==> lane_refilled(
                    self.lane_buffers(l),
                    self.lane_buffers(l),
                    self.config_spec(),
                    sockets,
                ),
    {
        assert forall|l: int|
            #![trigger self.lane_buffers(l)]
            0 <= l < self.lanes() implies lane_refilled(
            self.lane_buffers(l),
            self.lane_buffers(l),
            self.config_spec(),
            sockets,
        ) by {
            assert(self.tx_buffers@[l].wf());
            self.tx_buffers@[l].lemma_bounded();
        }
    }

    /// Takes the oldest batch of received packets of a lane.
    pub fn pop_rx_batch(&mut self, handle: &UdpTileHandle) -> (r: Option<TileRxBatch<S>>)
        requires
            old(self).wf(),
            handle.lane() < old(self).lanes(),
        ensures
            final(self).wf(),
            final(self).same_setup(old(self)),
            final(self).tx_work() == old(self).tx_work(),
            final(self).same_lanes(old(self), -1, -1, -1),
            final(self).rx_lanes().same_elsewhere(&old(self).rx_lanes(), handle.lane() as int),
            final(self).rx_lanes().same_spare(&old(self).rx_lanes()),
            if old(self).rx_lanes().queued(handle.lane() as int).len() > 0 {
                &&& r == Some(old(self).rx_lanes().queued(handle.lane() as int)[0])
                &&& final(self).rx_lanes().queued(handle.lane() as int) == old(self).rx_lanes().queued(
                    handle.lane() as int,
                ).skip(1)
            } else {
                &&& r is None
                &&& final(self).rx_lanes().queued(handle.lane() as int) == old(self).rx_lanes().queued(
                    handle.lane() as int,
                )
            },
    {
        let lane: usize = handle.lane_index;
        self.rx.pop_batch(lane)
    }

    /// Returns an empty receive batch container.
    pub fn alloc_rx_batch(&mut self) -> (r: TileRxBatch<S>)
        requires
            old(self).wf(),
        ensures
            final(self).wf(),
            final(self).same_setup(old(self)),
            final(self).tx_work() == old(self).tx_work(),
            final(self).same_lanes(old(self), -1, -1, -1),
            final(self).rx_lanes().same_elsewhere(&old(self).rx_lanes(), -1),
            final(self).rx_lanes().spare_taken(&old(self).rx_lanes()),
            popped(old(self).rx_lanes().spare_batches()).0 matches Some(batch) ==> r == batch,
            r@.len() == 0,
    {
        self.rx.alloc_batch()
    }

    /// Takes back a receive batch container.
    pub fn recycle_rx_batch(&mut self, batch: TileRxBatch<S>)
        requires
            old(self).wf(),
        ensures
            final(self).wf(),
            final(self).same_setup(old(self)),
            final(self).tx_work() == old(self).tx_work(),
            final(self).same_lanes(old(self), -1, -1, -1),
            final(self).rx_lanes().same_elsewhere(&old(self).rx_lanes(), -1),
            final(self).rx_lanes().spare_kept(&old(self).rx_lanes()),
    {
        self.rx.recycle_batch(batch);
    }

    /// Moves up to `count` free transmit buffers of a lane to `out`.
    pub fn alloc_tx_buffers(
        &mut self,
        handle: &UdpTileHandle,
        count: usize,
        out: &mut Vec<TileTxBuffer<S>>,
    ) -> (r: usize)
        requires
            old(self).wf(),
            handle.lane() < old(self).lanes(),
        ensures
            final(self).wf(),
            final(self).same_setup(old(self)),
            final(self).tx_work() == old(self).tx_work(),
            final(self).rx_lanes() == old(self).rx_lanes(),
            final(self).same_lanes(old(self), handle.lane() as int, -1, -1),
            final(self).lane_buffers(handle.lane() as int).spec_capacity() == old(self).lane_buffers(handle.lane() as int).spec_capacity(),
            r == smaller(count as int, old(self).lane_buffers(handle.lane() as int)@.len() as int),
            final(out)@ == old(out)@ + old(self).lane_buffers(handle.lane() as int)@.take(r as int),
            final(self).lane_buffers(handle.lane() as int)@ == old(self).lane_buffers(handle.lane() as int)@.skip(
                r as int,
            ),
    {
        let lane: usize = handle.lane_index;
        self.tx_buffers[lane].pop_into(count, out)
    }

    /// Queues filled transmit buffers of a lane, all with the same metadata,
    /// until its queue is full. Returns how many left `buffers`.
    pub fn push_tx_buffers(
        &mut self,
        handle: &UdpTileHandle,
        buffers: &mut Vec<TileTxBuffer<S>>,
        meta: TileTxMeta,
    ) -> (r: usize)
        requires
            old(self).wf(),
            handle.lane() < old(self).lanes(),
            forall|i: int|
                0 <= i < old(buffers)@.len() ==> (#[trigger] old(buffers)@[i]).buffer_spec().wf(),
        ensures
            final(self).wf(),
            final(self).same_setup(old(self)),
            final(self).rx_lanes() == old(self).rx_lanes(),
            final(self).same_lanes(old(self), -1, handle.lane() as int, -1),
            ({
                let backlog = old(self).buffer_backlog(handle.lane() as int);
                let after = final(self).buffer_backlog(handle.lane() as int);
                &&& after.len() == backlog.len() + r
                &&& after.take(backlog.len() as int) == backlog
                &&& forall|i: int|
                    0 <= i < r ==> (#[trigger] after[backlog.len() + i]) == (TileTxBufferWork {
                        buffer: old(buffers)@[i],
                        meta,
                    })
            }),
            ({
                let queue = old(self).lane_buffer_work(handle.lane() as int);
                let after = final(self).lane_buffer_work(handle.lane() as int);
                &&& r == smaller(
                    old(buffers)@.len() as int,
                    queue.spec_capacity() - queue@.len(),
                )
                &&& final(buffers)@ == old(buffers)@.skip(r as int)
                &&& after.spec_capacity() == queue.spec_capacity()
                &&& after@.len() == queue@.len() + r
                &&& after@.take(queue@.len() as int) == queue@
                &&& forall|i: int|
                    0 <= i < r ==> (#[trigger] after@[queue@.len() + i]) == (TileTxBufferWork {
                        buffer: old(buffers)@[i],
                        meta,
                    })
            }),
            final(self).tx_work() == old(self).tx_work() + r,
    {
        let lane: usize = handle.lane_index;
        let wrap = |buffer: TileTxBuffer<S>| -> (work: TileTxBufferWork<S>)
            ensures
                work == (TileTxBufferWork { buffer, meta }),
            { TileTxBufferWork { buffer, meta } };
        let ghost given = buffers@;
        let moved: usize = self.buffer_work[lane].push_many_from(buffers, wrap);
        proof {
            let queue = old(self).buffer_work@[lane as int];
            let after = self.buffer_work@[lane as int];
            assert forall|i: int| 0 <= i < moved implies (#[trigger] after@[queue@.len() + i]) == (
            TileTxBufferWork { buffer: given[i], meta }) by {
                assert(given[i] == given[i]);
            }
            assert(work_list(self.deferred_buffer_work@[lane as int], after@).len() == work_list(
                old(self).deferred_buffer_work@[lane as int],
                queue@,
            ).len() + moved);
            lemma_work_total_update(
                old(self).deferred_buffer_work@,
                old(self).buffer_work@,
                self.deferred_buffer_work@,
                self.buffer_work@,
                lane as int,
            );
            lemma_work_list_extends(
                self.deferred_buffer_work@[lane as int],
                queue@,
                after@,
            );
            assert forall|l: int|
                #![trigger self.buffer_work@[l]]
                0 <= l < self.lanes() implies lane_work_ok::<UdpTxBuffer<S>, TileTxBufferWork<S>>(
                self.deferred_buffer_work@[l],
                self.buffer_work@[l],
            ) by {
                assert(lane_work_ok::<UdpTxBuffer<S>, TileTxBufferWork<S>>(
                    old(self).deferred_buffer_work@[l],
                    old(self).buffer_work@[l],
                ));
                if l == lane {
                    let work = work_list(self.deferred_buffer_work@[l], after@);
                    let earlier = work_list(self.deferred_buffer_work@[l], queue@);
                    assert forall|i: int| 0 <= i < work.len() implies (
                    #[trigger] work[i]).work_wf() by {
                        if i < earlier.len() {
                            assert(work[i] == earlier[i]);
                        } else {
                            let k = i - earlier.len();
                            assert(work[i] == after@[queue@.len() + k]);
                            assert(given[k].buffer_spec().wf());
                        }
                    }
                }
            }
        }
        moved
    }

    /// Queues packets of a lane until its queue is full. Returns how many left
    /// `packets`.
    pub fn push_tx_packets(&mut self, handle: &UdpTileHandle, packets: &mut Vec<TileTxPacket<S>>) -> (r: usize)
        requires
            old(self).wf(),
            handle.lane() < old(self).lanes(),
        ensures
            final(self).wf(),
            final(self).same_setup(old(self)),
            final(self).rx_lanes() == old(self).rx_lanes(),
            final(self).same_lanes(old(self), -1, -1, handle.lane() as int),
            final(self).packet_backlog(handle.lane() as int) == old(self).packet_backlog(handle.lane() as int)
                + old(packets)@.take(r as int),
            ({
                let queue = old(self).lane_packet_work(handle.lane() as int);
                let after = final(self).lane_packet_work(handle.lane() as int);
                &&& r == smaller(
                    old(packets)@.len() as int,
                    queue.spec_capacity() - queue@.len(),
                )
                &&& final(packets)@ == old(packets)@.skip(r as int)
                &&& after.spec_capacity() == queue.spec_capacity()
                &&& after@ == queue@ + old(packets)@.take(r as int)
            }),
            final(self).tx_work() == old(self).tx_work() + r,
    {
        let lane: usize = handle.lane_index;
        let keep = |packet: TileTxPacket<S>| -> (same: TileTxPacket<S>)
            ensures
                same == packet,
            { packet };
        let ghost given = packets@;
        let moved: usize = self.packet_work[lane].push_many_from(packets, keep);
        proof {
            let queue = old(self).packet_work@[lane as int];
            let after = self.packet_work@[lane as int];
            assert forall|i: int| 0 <= i < after@.len() implies #[trigger] after@[i] == (queue@
                + given.take(moved as int))[i] by {
                if i < queue@.len() {
                    assert(after@.take(queue@.len() as int)[i] == queue@[i]);
                } else {
                    assert(given[i - queue@.len()] == after@[queue@.len() + (i - queue@.len())]);
                }
            }
            assert(after@ =~= queue@ + given.take(moved as int));
            assert(work_list(self.deferred_packets@[lane as int], after@).len() == work_list(
                old(self).deferred_packets@[lane as int],
                queue@,
            ).len() + moved);
            lemma_work_total_update(
                old(self).deferred_packets@,
                old(self).packet_work@,
                self.deferred_packets@,
                self.packet_work@,
                lane as int,
            );
        }
        moved
    }
}

proof fn lemma_turns_split(
    turn: int,
    buffers: nat,
    packets: nat,
    all: nat,
    lanes: nat,
    sockets: nat,
)
    requires
        buffers + packets <= all,
        turn + (all + 2 * lanes) * sockets <= usize::MAX,
    ensures
        turn + (buffers + lanes) * sockets + (packets + lanes) * sockets <= usize::MAX,
        turn + (buffers + lanes) * sockets <= usize::MAX,
{
    assert((buffers + lanes) * sockets + (packets + lanes) * sockets <= (all + 2 * lanes) * sockets)
        by (nonlinear_arith)
        requires
            buffers + packets <= all,
    ;
    assert(0 <= (packets + lanes) * sockets) by (nonlinear_arith);
}

proof fn lemma_work_list_extends<W>(deferred: Option<W>, queued: Seq<W>, longer: Seq<W>)
    requires
        queued.len() <= longer.len(),
        longer.take(queued.len() as int) == queued,
    ensures
        work_list(deferred, longer).len() == work_list(deferred, queued).len() + (longer.len()
            - queued.len()),
        forall|i: int|
            0 <= i < work_list(deferred, queued).len() ==> (#[trigger] work_list(
                deferred,
                longer,
            )[i]) == work_list(deferred, queued)[i],
        forall|k: int|
            0 <= k < longer.len() - queued.len() ==> work_list(deferred, longer)[work_list(
                deferred,
                queued,
            ).len() + k] == #[trigger] longer[queued.len() + k],
{
    assert forall|i: int| 0 <= i < queued.len() implies longer[i] == queued[i] by {
        assert(longer.take(queued.len() as int)[i] == queued[i]);
    }
}

/// A lane kept its free transmit buffers and got more up to its refill target,
/// each from one of the sockets.
pub open spec fn lane_refilled<S: UdpSocket>(
    before: SpscRing<TileTxBuffer<S>>,
    after: SpscRing<TileTxBuffer<S>>,
    config: TileConfig,
    sockets: nat,
) -> bool {
    &&& after.spec_capacity() == before.spec_capacity()
    &&& before@.is_prefix_of(after@)
    &&& after@.len() <= before@.len() + refill_target(config, before@.len(), before.spec_capacity())
    &&& forall|i: int|
        before@.len() <= i < after@.len() ==> tx_buffer_ok(#[trigger] after@[i], sockets)
}

/// The number of items that a ring made for `capacity` items holds.
pub open spec fn ring_capacity(capacity: usize) -> nat {
    if capacity == 0 {
        1
    } else if capacity == usize::MAX {
        (usize::MAX - 1) as nat
    } else {
        capacity as nat
    }
}

/// The batches that a lane of a new tile may queue have room for the configured packets,
/// and one batch fewer has not, unless there is only one.
pub proof fn law_rx_queues_hold_the_configured_packets<
    S: UdpSocket,
    C: IngressClassifier<S::RecvMeta, UdpRxBuffer<S>>,
>(classifier: C, lane_count: usize, config: TileConfig, tile: UdpTile<S, C>, lane: int)
    requires
        call_ensures(UdpTile::<S, C>::with_config, (classifier, lane_count, config), tile),
        config.batch_size > 0,
        0 <= lane < lane_count,
    ensures
        tile.rx_lanes().queue_limit(lane) >= 1,
        tile.rx_lanes().queue_limit(lane) * config.batch_size >= config.queue_capacity,
        tile.rx_lanes().queue_limit(lane) == 1 || (tile.rx_lanes().queue_limit(lane) - 1)
            * config.batch_size < config.queue_capacity,
{
    law_pieces_cover_the_whole(config.queue_capacity as int, config.batch_size as int);
    assert(!tile.taken_lanes()[lane]);
    if config.queue_capacity == 0 {
        assert(1 * config.batch_size >= 0);
    }
}

/// The number of batches that is computed for a queue is the least one that has room for
/// the configured packets, and never zero.
pub proof fn law_rx_queue_capacity_is_least(config: TileConfig, r: usize, fewer: int)
    requires
        call_ensures(rx_queue_capacity, (config,), r),
        config.batch_size > 0,
        0 < fewer < r,
    ensures
        fewer * config.batch_size < config.queue_capacity <= r * config.batch_size,
{
    assert(fewer * config.batch_size <= (r - 1) * config.batch_size) by (nonlinear_arith)
        requires
            fewer <= r - 1,
            config.batch_size > 0,
    ;
}

/// A new tile is empty and unused: nothing is counted, queued or handed out, and each lane
/// has the room that the configuration asks for.
pub proof fn law_new_tiles_are_empty<
    S: UdpSocket,
    C: IngressClassifier<S::RecvMeta, UdpRxBuffer<S>>,
>(classifier: C, lane_count: usize, config: TileConfig, tile: UdpTile<S, C>, lane: int)
    requires
        call_ensures(UdpTile::<S, C>::with_config, (classifier, lane_count, config), tile),
        0 <= lane < lane_count,
        0 < config.tx_buffer_queue_capacity < usize::MAX,
        config.queue_capacity < usize::MAX,
        0 < config.batch_size < usize::MAX,
    ensures
        tile.lanes() == lane_count,
        tile.config_spec() == config,
        tile.classifier_spec() == classifier,
        !tile.is_started(),
        tile.stats_spec().classifier_drops == 0,
        tile.stats_spec().rx_queue_drops == 0,
        tile.stats_spec().tx_drops == 0,
        tile.stats_spec().tx_packets == 0,
        tile.tx_work() == 0,
        tile.taken_lanes().len() == lane_count,
        !tile.taken_lanes()[lane],
        tile.rx_lanes().queued(lane).len() == 0,
        tile.rx_lanes().collecting(lane).len() == 0,
        tile.lane_buffers(lane)@.len() == 0,
        tile.lane_buffers(lane).spec_capacity() == config.tx_buffer_queue_capacity,
        tile.lane_buffer_work(lane).spec_capacity() >= config.queue_capacity,
        tile.lane_buffer_work(lane).spec_capacity() >= config.batch_size,
        tile.lane_packet_work(lane).spec_capacity() == tile.lane_buffer_work(lane).spec_capacity(),
        tile.lane_packet_work(lane).spec_capacity() == config.queue_capacity || tile.lane_packet_work(
            lane,
        ).spec_capacity() == config.batch_size,
{
    assert(!tile.taken_lanes()[lane]);
}

/// A tile that is made without a configuration has room for 1024 packets in its queues, in
/// batches of 64, and a lane with fewer than 256 buffers gets up to 256 more.
pub proof fn law_default_tiles<S: UdpSocket, C: IngressClassifier<S::RecvMeta, UdpRxBuffer<S>>>(
    classifier: C,
    lane_count: usize,
    tile: UdpTile<S, C>,
    lane: int,
)
    requires
        call_ensures(UdpTile::<S, C>::new, (classifier, lane_count), tile),
        0 <= lane < lane_count,
    ensures
        tile.lanes() == lane_count,
        tile.classifier_spec() == classifier,
        tile.rx_lanes().queue_limit(lane) == 16,
        tile.config_spec().batch_size == 64,
        tile.config_spec().queue_capacity == 1024,
        tile.config_spec().tx_buffer_refill_watermark == 256,
        tile.config_spec().tx_buffer_refill_batch == 256,
        tile.config_spec().pin_thread,
        tile.lane_buffers(lane).spec_capacity() == 1024,
        tile.lane_packet_work(lane).spec_capacity() == 1024,
        tile.lane_buffer_work(lane).spec_capacity() == 1024,
{
    law_pieces_cover_the_whole(1024, 64);
    assert(!tile.taken_lanes()[lane]);
}

/// A configuration fits where it has at least one lane, batches, buffers and refills, and
/// the queues of all lanes can be addressed.
pub proof fn law_tile_configurations_fit(lane_count: usize, config: TileConfig, r: bool, limit: int)
    requires
        call_ensures(tile_config_fits, (lane_count, config), r),
        config.batch_size > 0,
        call_ensures(rx_queue_capacity, (config,), limit as usize),
        0 <= limit <= usize::MAX,
    ensures
        lane_count == 0 ==> !r,
        config.tx_buffer_queue_capacity == 0 ==> !r,
        config.tx_buffer_refill_batch == 0 ==> !r,
        r ==> 16 * (limit * lane_count + lane_count) <= isize::MAX,
        lane_count > 0 && config.tx_buffer_queue_capacity > 0 && config.tx_buffer_refill_batch > 0
            && 16 * (limit * lane_count + lane_count) <= isize::MAX ==> r,
{
}

/// Each lane is handed out once: the first request for it is granted, any later one is
/// not, and so is none for a lane that does not exist.
pub proof fn law_lanes_are_handed_out_once<
    S: UdpSocket,
    C: IngressClassifier<S::RecvMeta, UdpRxBuffer<S>>,
>(lane_index: usize, r: Option<UdpTileHandle>)
    ensures
        forall|tile: &mut UdpTile<S, C>| #[trigger]
            call_ensures(UdpTile::<S, C>::lane_handle, (tile, lane_index), r) && tile.wf() ==> {
                &&& r is Some <==> lane_index < tile.lanes() && !tile.taken_lanes()[lane_index as int]
                &&& r matches Some(handle) ==> handle.lane() == lane_index
                    && final(tile).taken_lanes()[lane_index as int]
                &&& final(tile).taken_lanes().len() == tile.taken_lanes().len()
                &&& forall|l: int|
                    0 <= l < tile.lanes() && l != lane_index ==> #[trigger] final(tile).taken_lanes()[l]
                        == tile.taken_lanes()[l]
                &&& final(tile).lanes() == tile.lanes()
                &&& final(tile).stats_spec() == tile.stats_spec()
                &&& final(tile).rx_lanes() == tile.rx_lanes()
                &&& final(tile).tx_work() == tile.tx_work()
            },
{
}

/// A tile is started once.
pub proof fn law_tiles_start_once<S: UdpSocket, C: IngressClassifier<S::RecvMeta, UdpRxBuffer<S>>>(
    r: Result<(), TileError>,
)
    ensures
        forall|tile: &mut UdpTile<S, C>| #[trigger]
            call_ensures(UdpTile::<S, C>::start, (tile,), r) ==> {
                &&& final(tile).is_started()
                &&& r is Ok <==> !tile.is_started()
                &&& r matches Err(error) ==> error is AlreadyStarted
            },
{
}

/// Sockets are attached where there is at least one and no more than can be named, and
/// their workers can be run together: then each socket has an empty list of its own.
pub proof fn law_sockets_are_attached<
    S: UdpSocket,
    C: IngressClassifier<S::RecvMeta, UdpRxBuffer<S>>,
>(sockets: &[S], r: Result<TileAffinity, TileError>)
    ensures
        forall|tile: &mut UdpTile<S, C>| #[trigger]
            call_ensures(UdpTile::<S, C>::attach_sockets, (tile, sockets), r) ==> {
                &&& sockets@.len() == 0 ==> (r matches Err(error) && error is EmptySocketSet)
                &&& sockets@.len() > 65536 ==> (r matches Err(
                    TileError::TooManySockets { count },
                ) && count == sockets@.len())
                &&& r is Ok ==> 0 < sockets@.len() <= 65536 && final(tile).pending_spec().len()
                    == sockets@.len()
                &&& r is Err ==> *final(tile) == *tile
            },
{
}

/// What a lane's receiver takes is the batch that was queued first, and only that one.
pub proof fn law_received_batches_are_taken_in_order<
    S: UdpSocket,
    C: IngressClassifier<S::RecvMeta, UdpRxBuffer<S>>,
>(handle: &UdpTileHandle, r: Option<TileRxBatch<S>>)
    ensures
        forall|tile: &mut UdpTile<S, C>|
            #![trigger call_ensures(UdpTile::<S, C>::pop_rx_batch, (tile, handle), r)]
            call_ensures(UdpTile::<S, C>::pop_rx_batch, (tile, handle), r) ==> {
                let lane = handle.lane() as int;
                let before = tile.rx_lanes().queued(lane);
                let after = final(tile).rx_lanes().queued(lane);
                &&& r is None <==> before.len() == 0
                &&& r is None ==> after == before
                &&& r matches Some(batch) ==> before == seq![batch] + after
            },
{
    assert forall|tile: &mut UdpTile<S, C>|
        #![trigger call_ensures(UdpTile::<S, C>::pop_rx_batch, (tile, handle), r)]
        call_ensures(UdpTile::<S, C>::pop_rx_batch, (tile, handle), r) implies {
        let lane = handle.lane() as int;
        let before = tile.rx_lanes().queued(lane);
        let after = final(tile).rx_lanes().queued(lane);
        &&& r is None <==> before.len() == 0
        &&& r is None ==> after == before
        &&& r matches Some(batch) ==> before == seq![batch] + after
    } by {
        let before = tile.rx_lanes().queued(handle.lane() as int);
        if before.len() > 0 {
            assert(before =~= seq![before[0]] + before.skip(1));
        }
    }
}

/// A lane's sender gets as many of its waiting buffers as it asks for, as far as there are
/// any: those that have waited longest, in order, and the others stay.
pub proof fn law_buffers_are_handed_out_in_order<
    S: UdpSocket,
    C: IngressClassifier<S::RecvMeta, UdpRxBuffer<S>>,
>(handle: &UdpTileHandle, count: usize, r: usize)
    ensures
        forall|tile: &mut UdpTile<S, C>, out: &mut Vec<TileTxBuffer<S>>| #[trigger]
            call_ensures(UdpTile::<S, C>::alloc_tx_buffers, (tile, handle, count, out), r) ==> {
                let before = tile.lane_buffers(handle.lane() as int)@;
                let after = final(tile).lane_buffers(handle.lane() as int)@;
                &&& r <= count && r <= before.len()
                &&& r == count || r == before.len()
                &&& final(out)@.len() == out@.len() + r
                &&& forall|i: int|
                    0 <= i < out@.len() ==> #[trigger] final(out)@[i] == out@[i]
                &&& forall|i: int|
                    0 <= i < r ==> final(out)@[out@.len() + i] == #[trigger] before[i]
                &&& after.len() == before.len() - r
                &&& forall|i: int|
                    0 <= i < after.len() ==> #[trigger] after[i] == before[r + i]
            },
{
}

/// Filled buffers are taken in order, each with the request that it was sent with, as many
/// as there is room for. The others are handed back in order.
pub proof fn law_filled_buffers_are_queued_in_order<
    S: UdpSocket,
    C: IngressClassifier<S::RecvMeta, UdpRxBuffer<S>>,
>(handle: &UdpTileHandle, meta: TileTxMeta, r: usize)
    ensures
        forall|tile: &mut UdpTile<S, C>, buffers: &mut Vec<TileTxBuffer<S>>| #[trigger]
            call_ensures(UdpTile::<S, C>::push_tx_buffers, (tile, handle, buffers, meta), r)
                && tile.lane_buffer_work(handle.lane() as int)@.len() <= tile.lane_buffer_work(
                handle.lane() as int,
            ).spec_capacity() ==> {
                let before = tile.lane_buffer_work(handle.lane() as int);
                let after = final(tile).lane_buffer_work(handle.lane() as int);
                &&& r <= buffers@.len() && before@.len() + r <= before.spec_capacity()
                &&& r == buffers@.len() || before@.len() + r == before.spec_capacity()
                &&& after@.len() == before@.len() + r
                &&& after.spec_capacity() == before.spec_capacity()
                &&& forall|i: int|
                    0 <= i < before@.len() ==> after@.take(before@.len() as int)[i]
                        == #[trigger] before@[i]
                &&& forall|i: int|
                    0 <= i < r ==> {
                        &&& (#[trigger] after@[before@.len() + i]).buffer == buffers@[i]
                        &&& after@[before@.len() + i].meta == meta
                    }
                &&& final(buffers)@.len() == buffers@.len() - r
                &&& forall|i: int|
                    0 <= i < final(buffers)@.len() ==> #[trigger] final(buffers)@[i] == buffers@[r
                        + i]
                &&& final(tile).tx_work() == tile.tx_work() + r
            },
{
}

/// Packets are taken in order, as many as there is room for, and the others are handed
/// back in order.
pub proof fn law_packets_are_queued_in_order<
    S: UdpSocket,
    C: IngressClassifier<S::RecvMeta, UdpRxBuffer<S>>,
>(handle: &UdpTileHandle, r: usize)
    ensures
        forall|tile: &mut UdpTile<S, C>, packets: &mut Vec<TileTxPacket<S>>| #[trigger]
            call_ensures(UdpTile::<S, C>::push_tx_packets, (tile, handle, packets), r)
                && tile.lane_packet_work(handle.lane() as int)@.len() <= tile.lane_packet_work(
                handle.lane() as int,
            ).spec_capacity() ==> {
                let before = tile.lane_packet_work(handle.lane() as int);
                let after = final(tile).lane_packet_work(handle.lane() as int);
                &&& r <= packets@.len() && before@.len() + r <= before.spec_capacity()
                &&& r == packets@.len() || before@.len() + r == before.spec_capacity()
                &&& after@.len() == before@.len() + r
                &&& after.spec_capacity() == before.spec_capacity()
                &&& forall|i: int|
                    0 <= i < before@.len() ==> after@[i] == #[trigger] before@[i]
                &&& forall|i: int|
                    0 <= i < r ==> #[trigger] after@[before@.len() + i] == packets@[i]
                &&& final(packets)@.len() == packets@.len() - r
                &&& forall|i: int|
                    0 <= i < final(packets)@.len() ==> #[trigger] final(packets)@[i] == packets@[r
                        + i]
                &&& final(tile).tx_work() == tile.tx_work() + r
            },
{
}

/// What goes to a lane, is dropped and is astray adds up batch by batch.
pub proof fn law_received_batches_add_up<S: UdpSocket>(
    batches: Seq<Seq<UdpReceive<UdpRxBuffer<S>, S::RecvMeta>>>,
    decisions: Seq<Seq<IngressDecision>>,
    sources: Seq<SocketIndex>,
    lanes: nat,
    lane: int,
    batch: Seq<UdpReceive<UdpRxBuffer<S>, S::RecvMeta>>,
    decided: Seq<IngressDecision>,
    source: SocketIndex,
)
    ensures
        all_delivered_to::<S>(
            batches.push(batch),
            decisions.push(decided),
            sources.push(source),
            lane,
        ) == all_delivered_to::<S>(batches, decisions, sources, lane) + delivered_to::<S>(
            batch,
            decided,
            source,
            lane,
        ),
        all_drop_decisions(decisions.push(decided)) == all_drop_decisions(decisions)
            + drop_decisions(decided),
        all_stray_decisions(decisions.push(decided), lanes) == all_stray_decisions(decisions, lanes)
            + stray_decisions(decided, lanes),
        all_delivered_to::<S>(
            Seq::<Seq<UdpReceive<UdpRxBuffer<S>, S::RecvMeta>>>::empty(),
            Seq::<Seq<IngressDecision>>::empty(),
            Seq::<SocketIndex>::empty(),
            lane,
        ).len() == 0,
        all_drop_decisions(Seq::<Seq<IngressDecision>>::empty()) == 0,
        all_stray_decisions(Seq::<Seq<IngressDecision>>::empty(), lanes) == 0,
{
    assert(batches.push(batch).drop_last() =~= batches);
    assert(decisions.push(decided).drop_last() =~= decisions);
    assert(sources.push(source).drop_last() =~= sources);
}

/// No received packet goes missing: what the sockets gave is on the lanes, or counted as
/// dropped by the classifier, or counted as lost for want of a lane or of room. The
/// sockets are asked one after the other, each with its own index, and the classifier
/// decides about each packet.
pub proof fn law_received_packets_are_all_accounted_for<
    S: UdpSocket,
    C: IngressClassifier<S::RecvMeta, UdpRxBuffer<S>>,
>(classifier: &C, r: Result<bool, TileError>)
    ensures
        forall|
            sockets: &mut [S],
            rx: &mut TileRecvBatch<S>,
            lanes: &mut RxLanes<S>,
            stats: &mut TileStats,
        | #[trigger]
            call_ensures(
                recv_from_sockets::<S, C>,
                (sockets, rx, lanes, classifier, stats),
                r,
            ) ==> exists|
                batches: Seq<Seq<UdpReceive<UdpRxBuffer<S>, S::RecvMeta>>>,
                decisions: Seq<Seq<IngressDecision>>,
                sources: Seq<SocketIndex>,
                overflow: nat,
            |
                {
                    let classified = all_drop_decisions(decisions);
                    let lost = all_stray_decisions(decisions, lanes.lanes()) + overflow;
                    &&& #[trigger] received_accounted(
                        *lanes,
                        *final(lanes),
                        *stats,
                        *final(stats),
                        batches,
                        decisions,
                        sources,
                        overflow,
                        r is Ok,
                    )
                    &&& stream_total(final(lanes).streams()) + classified + lost == stream_total(
                        lanes.streams(),
                    ) + stream_total(batches)
                    &&& stats.classifier_drops + classified <= u64::MAX
                        ==> final(stats).classifier_drops == stats.classifier_drops + classified
                    &&& stats.rx_queue_drops + lost <= u64::MAX ==> final(stats).rx_queue_drops
                        == stats.rx_queue_drops + lost
                    &&& overflow == 0 ==> forall|lane: int|
                        0 <= lane < lanes.lanes() ==> (#[trigger] final(lanes).stream(lane))
                            == lanes.stream(lane) + all_delivered_to::<S>(
                            batches,
                            decisions,
                            sources,
                            lane,
                        )
                    &&& r is Ok ==> batches.len() == sockets@.len()
                    &&& r matches Ok(progressed) ==> (progressed <==> stream_total(batches) > 0)
                    &&& decisions.len() == batches.len() && sources.len() == batches.len()
                    &&& forall|i: int|
                        0 <= i < batches.len() ==> {
                            &&& S::may_recv(
                                sockets@[i],
                                final(sockets)@[i],
                                #[trigger] batches[i],
                                Ok::<usize, Error>(batches[i].len() as usize),
                            )
                            &&& sources[i].value() == i
                            &&& decisions[i].len() == batches[i].len()
                        }
                    &&& forall|i: int, k: int|
                        0 <= i < batches.len() && 0 <= k < batches[i].len() ==> call_ensures(
                            C::classify,
                            (
                                classifier,
                                &batches[i][k].meta,
                                &batches[i][k].packet,
                                lanes.lanes() as usize,
                            ),
                            #[trigger] decisions[i][k],
                        )
                },
{
}

/// A pass loses no packet: what a tile had to send is sent, dropped and counted, or still
/// there, and a pass that reports no progress has sent and dropped nothing.
pub proof fn law_passes_lose_no_packet<
    S: UdpSocket,
    C: IngressClassifier<S::RecvMeta, UdpRxBuffer<S>>,
    M: UdpSocketSet<Socket = S>,
>(r: Result<bool, TileError>)
    ensures
        forall|tile: &mut UdpTile<S, C>, set: &mut M| #[trigger]
            call_ensures(UdpTile::<S, C>::poll_once::<M>, (tile, set), r) ==> exists|
                sent: nat,
                dropped: nat,
            |
                {
                    &&& #[trigger] transmit_accounted(*tile, *final(tile), sent, dropped)
                    &&& final(tile).tx_work() + sent + dropped == tile.tx_work()
                    &&& tile.stats_spec().tx_packets + sent <= u64::MAX
                        ==> final(tile).stats_spec().tx_packets == tile.stats_spec().tx_packets
                        + sent
                    &&& tile.stats_spec().tx_drops + dropped <= u64::MAX
                        ==> final(tile).stats_spec().tx_drops == tile.stats_spec().tx_drops
                        + dropped
                    &&& r == Ok::<bool, TileError>(false) ==> sent == 0 && dropped == 0
                },
{
}

/// A socket is open in a pass exactly where nothing is waiting for it, and what has left the
/// lists is what they have become shorter by.
pub proof fn law_open_sockets_have_nothing_waiting<T>(
    pending: Seq<Vec<T>>,
    after: Seq<Vec<T>>,
    b: int,
)
    requires
        0 <= b < pending.len(),
    ensures
        opened(pending).len() == pending.len(),
        opened(pending)[b] <==> pending[b]@.len() == 0,
        packets_left(pending, after) + list_total(after) == list_total(pending),
{
}

/// The lanes' queues are empty where no lane has a filled buffer or a packet in its queue.
pub proof fn law_lane_queues_are_empty_together<
    S: UdpSocket,
    C: IngressClassifier<S::RecvMeta, UdpRxBuffer<S>>,
>(tile: &UdpTile<S, C>, r: bool, lane: int)
    requires
        call_ensures(UdpTile::<S, C>::lane_tx_queues_empty, (tile,), r),
        0 <= lane < tile.lanes(),
    ensures
        r ==> tile.lane_buffer_work(lane)@.len() == 0 && tile.lane_packet_work(lane)@.len() == 0,
        !r ==> exists|busy: int|
            0 <= busy < tile.lanes() && ((#[trigger] tile.lane_buffer_work(busy))@.len() > 0
                || tile.lane_packet_work(busy)@.len() > 0),
        forall|stats: TileStats| #[trigger]
            call_ensures(UdpTile::<S, C>::stats, (tile,), stats) ==> stats == tile.stats_spec(),
{
}

/// Empty batches of a tile are kept for reuse, as far as there is room for them. A batch
/// that is given out is empty, and its packets stay where they are.
pub proof fn law_tile_batches_are_reused<
    S: UdpSocket,
    C: IngressClassifier<S::RecvMeta, UdpRxBuffer<S>>,
>(batch: TileRxBatch<S>)
    ensures
        forall|tile: &mut UdpTile<S, C>, r: TileRxBatch<S>| #[trigger]
            call_ensures(UdpTile::<S, C>::alloc_rx_batch, (tile,), r) ==> {
                let before = tile.rx_lanes().spare_batches();
                let after = final(tile).rx_lanes().spare_batches();
                &&& r@.len() == 0
                &&& before.len() > 0 ==> after.len() == before.len() - 1 && r == before[0]
                &&& before.len() == 0 ==> after.len() == 0
            },
        forall|tile: &mut UdpTile<S, C>| #[trigger]
            call_ensures(UdpTile::<S, C>::recycle_rx_batch, (tile, batch), ()) ==> {
                let before = tile.rx_lanes().spare_batches();
                let after = final(tile).rx_lanes().spare_batches();
                &&& before.len() < tile.rx_lanes().spare_limit() ==> after.len() == before.len() + 1
                &&& before.len() >= tile.rx_lanes().spare_limit() ==> after == before
            },
{
}

/// A pass without an error leaves packets waiting for a socket only where the socket took
/// none of exactly those.
pub proof fn law_passes_send_what_the_sockets_take<
    S: UdpSocket,
    C: IngressClassifier<S::RecvMeta, UdpRxBuffer<S>>,
    M: UdpSocketSet<Socket = S>,
>(r: Result<bool, TileError>)
    requires
        r is Ok,
    ensures
        forall|tile: &mut UdpTile<S, C>, set: &mut M|
            #![trigger call_ensures(UdpTile::<S, C>::poll_once::<M>, (tile, set), r)]
            call_ensures(UdpTile::<S, C>::poll_once::<M>, (tile, set), r) ==> forall|b: int|
                #![trigger final(tile).pending_spec()[b]]
                0 <= b < final(tile).pending_spec().len() && final(tile).pending_spec()[b]@.len()
                    > 0 ==> exists|asked: S, refused: S| #[trigger]
                    S::may_send(
                        asked,
                        refused,
                        final(tile).pending_spec()[b]@,
                        Ok::<usize, SendError>(0),
                    ),
{
    assert forall|tile: &mut UdpTile<S, C>, set: &mut M|
        #![trigger call_ensures(UdpTile::<S, C>::poll_once::<M>, (tile, set), r)]
        call_ensures(UdpTile::<S, C>::poll_once::<M>, (tile, set), r) implies forall|b: int|
        #![trigger final(tile).pending_spec()[b]]
        0 <= b < final(tile).pending_spec().len() && final(tile).pending_spec()[b]@.len() > 0
            ==> exists|asked: S, refused: S| #[trigger]
            S::may_send(
                asked,
                refused,
                final(tile).pending_spec()[b]@,
                Ok::<usize, SendError>(0),
            ) by {
        let (kept, made, can_retarget, sent, dropped, passed) = choose|
            kept: &mut M,
            made: bool,
            can_retarget: bool,
            sent: nat,
            dropped: nat,
            passed: Result<bool, TileError>,
        |
            {
                &&& #[trigger] call_ensures(M::poll_maintenance, (kept,), made)
                &&& #[trigger] pass_ran(
                    *tile,
                    *final(tile),
                    final(kept).sockets(),
                    final(set).sockets(),
                    can_retarget,
                    sent,
                    passed,
                )
                &&& #[trigger] transmit_accounted(*tile, *final(tile), sent, dropped)
                &&& match passed {
                    Ok(progressed) => r == Ok::<bool, TileError>(made || progressed),
                    Err(error) => r == Err::<bool, TileError>(error),
                }
            };
        lemma_pass_sends(
            *tile,
            *final(tile),
            final(kept).sockets(),
            final(set).sockets(),
            can_retarget,
            sent,
            passed,
        );
    }
}

proof fn lemma_pass_sends<S: UdpSocket, C: IngressClassifier<S::RecvMeta, UdpRxBuffer<S>>>(
    before: UdpTile<S, C>,
    after: UdpTile<S, C>,
    start: Seq<S>,
    end: Seq<S>,
    can_retarget: bool,
    sent: nat,
    passed: Result<bool, TileError>,
)
    requires
        pass_ran(before, after, start, end, can_retarget, sent, passed),
        passed is Ok,
    ensures
        forall|b: int|
            #![trigger after.pending_spec()[b]]
            0 <= b < after.pending_spec().len() && after.pending_spec()[b]@.len() > 0 ==> exists|
                asked: S,
                refused: S,
            | #[trigger]
                S::may_send(
                    asked,
                    refused,
                    after.pending_spec()[b]@,
                    Ok::<usize, SendError>(0),
                ),
{
    let (sent_all, transmitted) = choose|sent_all: Seq<S>, transmitted: bool|
        {
            &&& #[trigger] transmit_ended(
                before,
                after,
                start,
                sent_all,
                can_retarget,
                sent,
                transmitted,
            )
            &&& lanes_served(before, after, sent_all, end, transmitted, passed)
        };
    assert(transmit_ended(before, after, start, sent_all, can_retarget, sent, transmitted));
    assert(all_declined(sent_all, after.pending_spec()));
    assert forall|b: int|
        #![trigger after.pending_spec()[b]]
        0 <= b < after.pending_spec().len() && after.pending_spec()[b]@.len() > 0 implies exists|
        asked: S,
        refused: S,
    | #[trigger]
        S::may_send(asked, refused, after.pending_spec()[b]@, Ok::<usize, SendError>(0)) by {
        assert(declined(sent_all[b], after.pending_spec()[b]@));
        let asked = choose|asked: S| #[trigger]
            S::may_send(
                asked,
                sent_all[b],
                after.pending_spec()[b]@,
                Ok::<usize, SendError>(0),
            );
        assert(S::may_send(
            asked,
            sent_all[b],
            after.pending_spec()[b]@,
            Ok::<usize, SendError>(0),
        ));
    }
}

/// A pass without an error has asked every socket, hands over every batch that it started,
/// and accounts for every packet that it received. A pass that reports no progress received
/// none.
pub proof fn law_passes_account_for_what_they_receive<
    S: UdpSocket,
    C: IngressClassifier<S::RecvMeta, UdpRxBuffer<S>>,
    M: UdpSocketSet<Socket = S>,
>(r: Result<bool, TileError>)
    requires
        r is Ok,
    ensures
        forall|tile: &mut UdpTile<S, C>, set: &mut M|
            #![trigger call_ensures(UdpTile::<S, C>::poll_once::<M>, (tile, set), r)]
            call_ensures(UdpTile::<S, C>::poll_once::<M>, (tile, set), r) ==> {
                &&& forall|lane: int|
                    0 <= lane < final(tile).lanes() ==> (
                    #[trigger] final(tile).rx_lanes().collecting(lane)).len() == 0
                &&& exists|received: nat, classified: nat, lost: nat| #[trigger]
                    receive_balance(*tile, *final(tile), received, classified, lost) && (r == Ok::<
                        bool,
                        TileError,
                    >(false) ==> received == 0)
            },
{
    assert forall|tile: &mut UdpTile<S, C>, set: &mut M|
        #![trigger call_ensures(UdpTile::<S, C>::poll_once::<M>, (tile, set), r)]
        call_ensures(UdpTile::<S, C>::poll_once::<M>, (tile, set), r) implies {
        &&& forall|lane: int|
            0 <= lane < final(tile).lanes() ==> (#[trigger] final(tile).rx_lanes().collecting(
                lane,
            )).len() == 0
        &&& exists|received: nat, classified: nat, lost: nat| #[trigger]
            receive_balance(*tile, *final(tile), received, classified, lost) && (r == Ok::<
                bool,
                TileError,
            >(false) ==> received == 0)
    } by {
        let (kept, made, can_retarget, sent, dropped, passed) = choose|
            kept: &mut M,
            made: bool,
            can_retarget: bool,
            sent: nat,
            dropped: nat,
            passed: Result<bool, TileError>,
        |
            {
                &&& #[trigger] call_ensures(M::poll_maintenance, (kept,), made)
                &&& #[trigger] pass_ran(
                    *tile,
                    *final(tile),
                    final(kept).sockets(),
                    final(set).sockets(),
                    can_retarget,
                    sent,
                    passed,
                )
                &&& #[trigger] transmit_accounted(*tile, *final(tile), sent, dropped)
                &&& match passed {
                    Ok(progressed) => r == Ok::<bool, TileError>(made || progressed),
                    Err(error) => r == Err::<bool, TileError>(error),
                }
            };
        lemma_pass_balance(
            *tile,
            *final(tile),
            final(kept).sockets(),
            final(set).sockets(),
            can_retarget,
            sent,
            passed,
        );
    }
}

/// Of `received` packets, `classified` were dropped by the classifier, `lost` were lost for
/// want of a lane or of room, and the rest is on the lanes. The counters say so.
pub open spec fn receive_balance<
    S: UdpSocket,
    C: IngressClassifier<S::RecvMeta, UdpRxBuffer<S>>,
>(
    before: UdpTile<S, C>,
    after: UdpTile<S, C>,
    received: nat,
    classified: nat,
    lost: nat,
) -> bool {
    let (counted, now) = (before.stats_spec(), after.stats_spec());
    &&& stream_total(after.rx_lanes().streams()) + classified + lost == stream_total(
        before.rx_lanes().streams(),
    ) + received
    &&& counted.classifier_drops + classified <= u64::MAX ==> now.classifier_drops
        == counted.classifier_drops + classified
    &&& counted.rx_queue_drops + lost <= u64::MAX ==> now.rx_queue_drops == counted.rx_queue_drops
        + lost
}

proof fn lemma_pass_balance<S: UdpSocket, C: IngressClassifier<S::RecvMeta, UdpRxBuffer<S>>>(
    before: UdpTile<S, C>,
    after: UdpTile<S, C>,
    start: Seq<S>,
    end: Seq<S>,
    can_retarget: bool,
    sent: nat,
    passed: Result<bool, TileError>,
)
    requires
        pass_ran(before, after, start, end, can_retarget, sent, passed),
        passed is Ok,
    ensures
        exists|received: nat, classified: nat, lost: nat| #[trigger]
            receive_balance(before, after, received, classified, lost) && (passed == Ok::<
                bool,
                TileError,
            >(false) ==> received == 0),
{
    let (sent_all, transmitted) = choose|sent_all: Seq<S>, transmitted: bool|
        {
            &&& #[trigger] transmit_ended(
                before,
                after,
                start,
                sent_all,
                can_retarget,
                sent,
                transmitted,
            )
            &&& lanes_served(before, after, sent_all, end, transmitted, passed)
        };
    let (asked, stages, served) = choose|
        asked: Seq<S>,
        stages: Seq<Seq<S>>,
        served: Result<bool, TileError>,
    |
        {
            &&& #[trigger] lanes_topped_up(before, after, sent_all, asked, stages)
            &&& #[trigger] receive_ran(before, after, asked, end, served)
            &&& match served {
                Ok(progressed) => passed == Ok::<bool, TileError>(
                    transmitted || refill_progress(before, after) || progressed,
                ),
                Err(error) => passed == Err::<bool, TileError>(error),
            }
        };
    let (batches, decisions, sources, overflow) = choose|
        batches: Seq<Seq<UdpReceive<UdpRxBuffer<S>, S::RecvMeta>>>,
        decisions: Seq<Seq<IngressDecision>>,
        sources: Seq<SocketIndex>,
        overflow: nat,
    |
        {
            &&& #[trigger] received_accounted(
                before.rx_lanes(),
                after.rx_lanes(),
                before.stats_spec(),
                after.stats_spec(),
                batches,
                decisions,
                sources,
                overflow,
                served is Ok,
            )
            &&& served matches Ok(progressed) ==> progressed == (stream_total(batches) > 0)
        };
    let classified = all_drop_decisions(decisions);
    let lost = all_stray_decisions(decisions, before.rx_lanes().lanes()) + overflow;
    assert(receive_balance(before, after, stream_total(batches), classified, lost));
}

/// A pass changes a lane's waiting buffers only by adding some behind them: none at or above
/// the watermark, and otherwise no more than a refill and no more than there is room for.
pub proof fn law_passes_top_lanes_up<
    S: UdpSocket,
    C: IngressClassifier<S::RecvMeta, UdpRxBuffer<S>>,
    M: UdpSocketSet<Socket = S>,
>(r: Result<bool, TileError>, lane: int)
    ensures
        forall|tile: &mut UdpTile<S, C>, set: &mut M|
            #![trigger call_ensures(UdpTile::<S, C>::poll_once::<M>, (tile, set), r)]
            call_ensures(UdpTile::<S, C>::poll_once::<M>, (tile, set), r) && 0 <= lane
                < tile.lanes() && tile.lane_buffers(lane)@.len() <= tile.lane_buffers(
                lane,
            ).spec_capacity() ==> {
                let before = tile.lane_buffers(lane);
                let after = final(tile).lane_buffers(lane);
                let config = tile.config_spec();
                &&& before@.len() <= after@.len() <= before.spec_capacity()
                &&& after@.take(before@.len() as int) == before@
                &&& after@.len() - before@.len() <= config.tx_buffer_refill_batch
                &&& before@.len() >= config.tx_buffer_refill_watermark ==> after@ == before@
            },
{
    assert forall|tile: &mut UdpTile<S, C>, set: &mut M|
        #![trigger call_ensures(UdpTile::<S, C>::poll_once::<M>, (tile, set), r)]
        call_ensures(UdpTile::<S, C>::poll_once::<M>, (tile, set), r) && 0 <= lane < tile.lanes()
            && tile.lane_buffers(lane)@.len() <= tile.lane_buffers(
            lane,
        ).spec_capacity() implies {
        let before = tile.lane_buffers(lane);
        let after = final(tile).lane_buffers(lane);
        let config = tile.config_spec();
        &&& before@.len() <= after@.len() <= before.spec_capacity()
        &&& after@.take(before@.len() as int) == before@
        &&& after@.len() - before@.len() <= config.tx_buffer_refill_batch
        &&& before@.len() >= config.tx_buffer_refill_watermark ==> after@ == before@
    } by {
        let before = tile.lane_buffers(lane);
        let after = final(tile).lane_buffers(lane);
        assert(lane_refilled(before, after, tile.config_spec(), set.sockets().len()));
        assert(after@.take(before@.len() as int) =~= before@);
    }
}

/// A set whose sockets cannot send for each other has no turns to count: every packet
/// leaves through its own socket.
pub proof fn law_turns_are_for_sockets_that_share<
    S: UdpSocket,
    C: IngressClassifier<S::RecvMeta, UdpRxBuffer<S>>,
    M: UdpSocketSet<Socket = S>,
>(r: Result<bool, TileError>)
    requires
        r is Ok,
        forall|set: &M, shared: bool| #[trigger]
            call_ensures(M::can_transmit_from_any_socket, (set,), shared) ==> !shared,
    ensures
        forall|tile: &mut UdpTile<S, C>, set: &mut M|
            #![trigger call_ensures(UdpTile::<S, C>::poll_once::<M>, (tile, set), r)]
            call_ensures(UdpTile::<S, C>::poll_once::<M>, (tile, set), r) ==> final(tile).turn()
                == tile.turn(),
{
    assert forall|tile: &mut UdpTile<S, C>, set: &mut M|
        #![trigger call_ensures(UdpTile::<S, C>::poll_once::<M>, (tile, set), r)]
        call_ensures(UdpTile::<S, C>::poll_once::<M>, (tile, set), r) implies final(tile).turn()
        == tile.turn() by {
        let (kept, made, can_retarget, sent, dropped, passed) = choose|
            kept: &mut M,
            made: bool,
            can_retarget: bool,
            sent: nat,
            dropped: nat,
            passed: Result<bool, TileError>,
        |
            {
                &&& #[trigger] call_ensures(M::poll_maintenance, (kept,), made)
                &&& call_ensures(
                    M::can_transmit_from_any_socket,
                    (&*final(kept),),
                    can_retarget,
                )
                &&& #[trigger] pass_ran(
                    *tile,
                    *final(tile),
                    final(kept).sockets(),
                    final(set).sockets(),
                    can_retarget,
                    sent,
                    passed,
                )
                &&& #[trigger] transmit_accounted(*tile, *final(tile), sent, dropped)
                &&& match passed {
                    Ok(progressed) => r == Ok::<bool, TileError>(made || progressed),
                    Err(error) => r == Err::<bool, TileError>(error),
                }
            };
        assert(!can_retarget);
        lemma_pass_keeps_turn(
            *tile,
            *final(tile),
            final(kept).sockets(),
            final(set).sockets(),
            sent,
            passed,
        );
    }
}

proof fn lemma_pass_keeps_turn<S: UdpSocket, C: IngressClassifier<S::RecvMeta, UdpRxBuffer<S>>>(
    before: UdpTile<S, C>,
    after: UdpTile<S, C>,
    start: Seq<S>,
    end: Seq<S>,
    sent: nat,
    passed: Result<bool, TileError>,
)
    requires
        pass_ran(before, after, start, end, false, sent, passed),
        passed is Ok,
    ensures
        after.turn() == before.turn(),
{
    let (sent_all, transmitted) = choose|sent_all: Seq<S>, transmitted: bool|
        {
            &&& #[trigger] transmit_ended(
                before,
                after,
                start,
                sent_all,
                false,
                sent,
                transmitted,
            )
            &&& lanes_served(before, after, sent_all, end, transmitted, passed)
        };
    let (given, between, completed, first, offered) = choose|
        given: Seq<S>,
        between: Seq<S>,
        completed: Seq<usize>,
        first: Seq<PendingTx<S>>,
        offered: Seq<PendingTx<S>>,
    | #[trigger]
        transmit_done(
            before,
            after,
            start,
            given,
            between,
            sent_all,
            completed,
            first,
            offered,
            false,
            sent,
        );
    assert(all_work_moved(before, after, first, offered, false));
    let capacity = tx_work_capacity_spec(before.config_spec()) as nat;
    let batch_size = before.config_spec().batch_size;
    let (middle, drops, turn) = choose|middle: Seq<PendingTx<S>>, drops: u64, turn: usize|
        {
            &&& #[trigger] work_moved::<UdpTxBuffer<S>, TileTxBufferWork<S>>(
                before.buffer_backlogs(),
                after.buffer_backlogs(),
                first,
                middle,
                before.stats_spec().tx_drops,
                drops,
                before.turn(),
                turn,
                opened(first),
                capacity,
                batch_size,
                false,
            )
            &&& work_moved::<UdpTxBuffer<S>, TileTxPacket<S>>(
                before.packet_backlogs(),
                after.packet_backlogs(),
                middle,
                offered,
                drops,
                after.stats_spec().tx_drops,
                turn,
                after.turn(),
                opened(first),
                capacity,
                batch_size,
                false,
            )
        };
    lemma_turn_stays::<UdpTxBuffer<S>, TileTxBufferWork<S>>(
        before.buffer_backlogs(),
        after.buffer_backlogs(),
        first,
        middle,
        before.stats_spec().tx_drops,
        drops,
        before.turn(),
        turn,
        opened(first),
        capacity,
        batch_size,
    );
    lemma_turn_stays::<UdpTxBuffer<S>, TileTxPacket<S>>(
        before.packet_backlogs(),
        after.packet_backlogs(),
        middle,
        offered,
        drops,
        after.stats_spec().tx_drops,
        turn,
        after.turn(),
        opened(first),
        capacity,
        batch_size,
    );
}

} // verus!
