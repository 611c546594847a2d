//! One pass of a tile worker over its sockets and lanes.

use vstd::prelude::*;

use crate::batch::{accepted_count, SendError, TxSlot};
use crate::buffer::{PacketBuffer, PacketBufferMut};
use crate::error::Error;
use crate::ring::{smaller, SpscRing};
use crate::tile::{SocketIndex, TileConfig, TileError, TileTxBuffer};
use crate::tile_rx::stream_total;
use crate::tile_tx::{
    assigned, assigned_total, bump, bumped, drain_retargetable_tx_queue,
    drain_source_local_tx_queue, dropped_count, lane_stuck, lemma_lane_stays_stuck,
    law_counters_count, law_no_work_is_lost, lemma_bumped_adds, moved_work, rotated, work_list,
    TxAdmission, TxWork,
};
use crate::udp::{
    law_pieces_cover_the_whole, lemma_piece_count, piece_count, UdpSocket, UdpTransmit,
    UdpTxBuffer, UdpTxBufferMut,
};

verus! {

/// Pending transmit slots of one socket.
pub type PendingTx<S> = Vec<TxSlot<UdpTransmit<UdpTxBuffer<S>>>>;

/// The sum of `counts`.
pub open spec fn count_sum(counts: Seq<nat>) -> nat
    decreases counts.len(),
{
    if counts.len() == 0 {
        0
    } else {
        count_sum(counts.drop_last()) + counts.last()
    }
}

proof fn lemma_count_sum_zeros(counts: Seq<nat>)
    requires
        forall|i: int| 0 <= i < counts.len() ==> (#[trigger] counts[i]) == 0,
    ensures
        count_sum(counts) == 0,
    decreases counts.len(),
{
    if counts.len() > 0 {
        lemma_count_sum_zeros(counts.drop_last());
    }
}

/// A send that was offered exactly `slots` accepted none of them and left the socket as
/// `after`.
pub open spec fn declined<S: UdpSocket>(
    after: S,
    slots: Seq<TxSlot<UdpTransmit<UdpTxBuffer<S>>>>,
) -> bool {
    exists|before: S| #[trigger] S::may_send(before, after, slots, Ok::<usize, SendError>(0))
}

/// A send failed with `error`, left exactly `slots` of what it was offered and the socket
/// as `after`.
pub open spec fn send_failed<S: UdpSocket>(
    after: S,
    slots: Seq<TxSlot<UdpTransmit<UdpTxBuffer<S>>>>,
    error: SendError,
) -> bool {
    exists|before: S, offered: Seq<TxSlot<UdpTransmit<UdpTxBuffer<S>>>>|
        {
            &&& #[trigger] S::may_send(before, after, offered, Err::<usize, SendError>(error))
            &&& error.accepted <= offered.len()
            &&& slots == offered.skip(error.accepted as int)
        }
}

/// One send of a flush.
pub struct FlushSend<S> {
    /// The slots that earlier sends accepted.
    pub from: usize,
    /// The socket before the send.
    pub before: S,
    /// What the send returned.
    pub result: Result<usize, SendError>,
    /// The socket after the send.
    pub after: S,
}

impl<S> FlushSend<S> {
    /// The slots that this send and the earlier ones accepted.
    pub open spec fn until(self) -> int {
        self.from + accepted_count(self.result)
    }

    /// The flush goes on after this send: it accepted something and did not fail.
    pub open spec fn goes_on(self) -> bool {
        self.result matches Ok(accepted) && accepted > 0
    }
}

/// Send `i` follows the send before it, or the socket `start`, and is offered what
/// earlier sends left of `offered`.
pub open spec fn flush_send_follows<S: UdpSocket>(
    start: S,
    offered: Seq<TxSlot<UdpTransmit<UdpTxBuffer<S>>>>,
    sends: Seq<FlushSend<S>>,
    i: int,
) -> bool {
    let send = sends[i];
    &&& if i == 0 {
        send.before == start && send.from == 0
    } else {
        &&& send.before == sends[i - 1].after
        &&& send.from == sends[i - 1].until()
        &&& sends[i - 1].goes_on()
    }
    &&& send.from < offered.len()
    &&& send.until() <= offered.len()
    &&& S::may_send(send.before, send.after, offered.skip(send.from as int), send.result)
}

/// The sends of a flush follow each other.
pub open spec fn flush_sends_follow<S: UdpSocket>(
    start: S,
    offered: Seq<TxSlot<UdpTransmit<UdpTxBuffer<S>>>>,
    sends: Seq<FlushSend<S>>,
) -> bool {
    forall|i: int|
        0 <= i < sends.len() ==> #[trigger] flush_send_follows(start, offered, sends, i)
}

/// The socket and the accepted slots after all sends.
pub open spec fn flush_end<S>(start: S, sends: Seq<FlushSend<S>>) -> (S, int) {
    if sends.len() == 0 {
        (start, 0)
    } else {
        (sends.last().after, sends.last().until())
    }
}

/// `sends` took the socket from `start` to `end` and left `left` of `offered`:
/// nothing is left, or the last send accepted nothing, or it failed.
pub open spec fn flush_run<S: UdpSocket>(
    start: S,
    end: S,
    offered: Seq<TxSlot<UdpTransmit<UdpTxBuffer<S>>>>,
    left: Seq<TxSlot<UdpTransmit<UdpTxBuffer<S>>>>,
    sends: Seq<FlushSend<S>>,
    result: Result<(), SendError>,
) -> bool {
    &&& flush_sends_follow(start, offered, sends)
    &&& flush_end(start, sends).0 == end
    &&& left == offered.skip(flush_end(start, sends).1)
    &&& match result {
        Ok(_) => if sends.len() > 0 && !sends.last().goes_on() {
            sends.last().result == Ok::<usize, SendError>(0)
        } else {
            left.len() == 0
        },
        Err(error) => sends.len() > 0 && sends.last().result == Err::<usize, SendError>(error),
    }
}

/// A run of sends took the socket from `start` to `end`, left `left` of `offered`
/// and returned `result`.
pub open spec fn flush_ran<S: UdpSocket>(
    start: S,
    end: S,
    offered: Seq<TxSlot<UdpTransmit<UdpTxBuffer<S>>>>,
    left: Seq<TxSlot<UdpTransmit<UdpTxBuffer<S>>>>,
    result: Result<(), SendError>,
) -> bool {
    exists|sends: Seq<FlushSend<S>>| #[trigger]
        flush_run(start, end, offered, left, sends, result)
}

/// What a flush leaves: nothing or what the socket declined, or what a failed send
/// left.
pub proof fn law_flush_leaves_what_was_refused<S: UdpSocket>(
    start: S,
    end: S,
    offered: Seq<TxSlot<UdpTransmit<UdpTxBuffer<S>>>>,
    left: Seq<TxSlot<UdpTransmit<UdpTxBuffer<S>>>>,
    result: Result<(), SendError>,
)
    requires
        flush_ran(start, end, offered, left, result),
    ensures
        match result {
            Ok(_) => left.len() == 0 || declined(end, left),
            Err(error) => send_failed(end, left, error),
        },
{
    let sends = choose|sends: Seq<FlushSend<S>>| #[trigger]
        flush_run(start, end, offered, left, sends, result);
    if sends.len() > 0 {
        let last = sends.last();
        assert(flush_send_follows(start, offered, sends, sends.len() - 1));
        let given = offered.skip(last.from as int);
        match last.result {
            Ok(accepted) => {
                if accepted == 0 {
                    assert(left == given);
                    assert(S::may_send(last.before, last.after, left, Ok::<usize, SendError>(0)));
                }
            },
            Err(error) => {
                assert(given.skip(error.accepted as int) =~= left);
                assert(S::may_send(
                    last.before,
                    last.after,
                    given,
                    Err::<usize, SendError>(error),
                ));
            },
        }
    }
}

/// The sends of a flush, with one more send that follows the last one.
proof fn lemma_one_more_send<S: UdpSocket>(
    start: S,
    offered: Seq<TxSlot<UdpTransmit<UdpTxBuffer<S>>>>,
    sends: Seq<FlushSend<S>>,
    send: FlushSend<S>,
)
    requires
        flush_sends_follow(start, offered, sends),
        sends.len() > 0 ==> sends.last().goes_on(),
        flush_end(start, sends) == (send.before, send.from as int),
        send.from < offered.len(),
        send.until() <= offered.len(),
        S::may_send(send.before, send.after, offered.skip(send.from as int), send.result),
    ensures
        flush_sends_follow(start, offered, sends.push(send)),
        flush_end(start, sends.push(send)) == (send.after, send.until()),
{
    let longer = sends.push(send);
    assert forall|i: int| 0 <= i < longer.len() implies #[trigger] flush_send_follows(
        start,
        offered,
        longer,
        i,
    ) by {
        if i < sends.len() {
            assert(flush_send_follows(start, offered, sends, i));
        }
    }
}

/// Sends the pending packets of one socket until it accepts nothing more.
/// Accepted packets leave the list and are counted.
pub(crate) fn flush_socket<S: UdpSocket>(
    socket: &mut S,
    pending: &mut PendingTx<S>,
    tx_packets: &mut u64,
) -> (r: (Result<(), SendError>, Ghost<nat>))
    ensures
        r.1@ <= old(pending)@.len(),
        final(pending)@ == old(pending)@.skip(r.1@ as int),
        *final(tx_packets) == bumped(*old(tx_packets), r.1@),
        flush_ran(*old(socket), *final(socket), old(pending)@, final(pending)@, r.0),
        r.0 is Ok ==> r.0 == Ok::<(), SendError>(()),
{
    let ghost mut sends: Seq<FlushSend<S>> = Seq::empty();
    let mut sent: usize = 0;
    let all: usize = pending.len();
    let ghost offered = pending@;
    proof {
        assert(pending@.skip(0) =~= pending@);
        lemma_bumped_adds(*tx_packets, 0, 0);
    }
    while pending.len() > 0
        invariant
            offered == old(pending)@,
            offered.len() == all,
            sent <= all,
            pending@ == offered.skip(sent as int),
            *tx_packets == bumped(*old(tx_packets), sent as nat),
            flush_sends_follow(*old(socket), offered, sends),
            flush_end(*old(socket), sends) == (*socket, sent as int),
            sends.len() > 0 ==> sends.last().goes_on(),
        decreases pending@.len(),
    {
        let ghost before = pending@;
        let ghost asked = *socket;
        let outcome = socket.send(pending.as_mut_slice());
        assert(S::may_send(asked, *socket, before, outcome));
        let accepted: usize = match &outcome {
            Ok(accepted) => *accepted,
            Err(error) => error.accepted,
        };
        let rest: PendingTx<S> = pending.split_off(accepted);
        *pending = rest;
        bump(tx_packets, accepted);
        proof {
            assert(pending@ =~= before.skip(accepted as int));
            assert(before.skip(accepted as int) =~= offered.skip(sent + accepted as int));
            lemma_bumped_adds(*old(tx_packets), sent as nat, accepted as nat);
            let send = FlushSend { from: sent, before: asked, result: outcome, after: *socket };
            lemma_one_more_send(*old(socket), offered, sends, send);
            sends = sends.push(send);
        }
        sent = sent + accepted;
        match outcome {
            Ok(_) => {
                if accepted == 0 {
                    proof {
                        assert(flush_run(
                            *old(socket),
                            *socket,
                            offered,
                            pending@,
                            sends,
                            Ok::<(), SendError>(()),
                        ));
                    }
                    return (Ok(()), Ghost(sent as nat));
                }
            },
            Err(error) => {
                proof {
                    assert(flush_run(
                        *old(socket),
                        *socket,
                        offered,
                        pending@,
                        sends,
                        Err::<(), SendError>(error),
                    ));
                }
                return (Err(error), Ghost(sent as nat));
            },
        }
    }
    assert(flush_run(*old(socket), *socket, offered, pending@, sends, Ok::<(), SendError>(())));
    (Ok(()), Ghost(sent as nat))
}

/// Exactly the first `sent[i]` pending packets of each socket `i` were accepted
/// and removed.
pub open spec fn flushed<T>(
    before: Seq<Vec<T>>,
    after: Seq<Vec<T>>,
    sent: Seq<nat>,
) -> bool {
    &&& after.len() == before.len()
    &&& sent.len() == before.len()
    &&& forall|i: int|
        0 <= i < before.len() ==> {
            &&& #[trigger] sent[i] <= before[i]@.len()
            &&& after[i]@ == before[i]@.skip(sent[i] as int)
        }
}

/// The pending packets of every socket were sent, one socket after the other, up to
/// the first that failed. Sockets behind it are as they were.
pub open spec fn sockets_flushed<S: UdpSocket>(
    sockets_before: Seq<S>,
    sockets_after: Seq<S>,
    before: Seq<PendingTx<S>>,
    after: Seq<PendingTx<S>>,
    result: Result<(), SendError>,
    done: int,
) -> bool {
    &&& sockets_after.len() == sockets_before.len()
    &&& after.len() == before.len()
    &&& 0 <= done <= before.len()
    &&& done <= sockets_before.len()
    &&& forall|i: int|
        #![trigger after[i]]
        0 <= i < done ==> flush_ran(
            sockets_before[i],
            sockets_after[i],
            before[i]@,
            after[i]@,
            Ok::<(), SendError>(()),
        )
    &&& match result {
        Ok(_) => done == smaller(sockets_before.len() as int, before.len() as int),
        Err(_) => {
            &&& done < before.len()
            &&& done < sockets_before.len()
            &&& flush_ran(
                sockets_before[done],
                sockets_after[done],
                before[done]@,
                after[done]@,
                result,
            )
        },
    }
    &&& forall|i: int|
        (if result is Ok {
            done
        } else {
            done + 1
        }) <= i < sockets_before.len() ==> #[trigger] sockets_after[i] == sockets_before[i]
    &&& forall|i: int|
        (if result is Ok {
            done
        } else {
            done + 1
        }) <= i < before.len() ==> (#[trigger] after[i])@ == before[i]@
}

/// The outcome of a flush as the result of its sends.
pub open spec fn flush_outcome(outcome: Result<bool, TileError>) -> Result<(), SendError> {
    match outcome {
        Err(TileError::Send(error)) => Err(error),
        _ => Ok(()),
    }
}

/// Sends the pending packets of every socket. A failed send ends the pass.
pub fn flush_pending_tx<S: UdpSocket>(
    sockets: &mut [S],
    pending: &mut Vec<PendingTx<S>>,
    tx_packets: &mut u64,
) -> (r: Result<bool, TileError>)
    ensures
        final(sockets)@.len() == old(sockets)@.len(),
        final(pending)@.len() == old(pending)@.len(),
        r matches Err(error) ==> error is Send,
        exists|sent: Seq<nat>|
            {
                &&& #[trigger] flushed(old(pending)@, final(pending)@, sent)
                &&& *final(tx_packets) == bumped(*old(tx_packets), count_sum(sent))
                &&& r matches Ok(progressed) ==> progressed == (count_sum(sent) > 0)
            },
        exists|done: int| #[trigger]
            sockets_flushed(
                old(sockets)@,
                final(sockets)@,
                old(pending)@,
                final(pending)@,
                flush_outcome(r),
                done,
            ),
{
    let count: usize = if sockets.len() < pending.len() {
        sockets.len()
    } else {
        pending.len()
    };
    let mut progressed = false;
    let ghost mut sent: Seq<nat> = Seq::new(pending@.len(), |i: int| 0nat);
    let ghost mut total: nat = 0;
    proof {
        lemma_count_sum_zeros(sent);
        lemma_bumped_adds(*tx_packets, 0, 0);
        assert forall|i: int| 0 <= i < pending@.len() implies #[trigger] sent[i]
            <= pending@[i]@.len() && pending@[i]@ == pending@[i]@.skip(sent[i] as int) by {
            assert(pending@[i]@.skip(0) =~= pending@[i]@);
        }
    }
    let mut index: usize = 0;
    while index < count
        invariant
            index <= count,
            count == smaller(sockets@.len() as int, pending@.len() as int),
            sockets@.len() == old(sockets)@.len(),
            pending@.len() == old(pending)@.len(),
            flushed(old(pending)@, pending@, sent),
            forall|i: int| index <= i < sent.len() ==> (#[trigger] sent[i]) == 0,
            total == count_sum(sent),
            *tx_packets == bumped(*old(tx_packets), total),
            progressed == (total > 0),
            forall|i: int|
                #![trigger pending@[i]]
                0 <= i < index ==> flush_ran(
                    old(sockets)@[i],
                    sockets@[i],
                    old(pending)@[i]@,
                    pending@[i]@,
                    Ok::<(), SendError>(()),
                ),
            forall|i: int|
                index <= i < sockets@.len() ==> #[trigger] sockets@[i] == old(sockets)@[i],
            forall|i: int|
                index <= i < pending@.len() ==> (#[trigger] pending@[i])@ == old(pending)@[i]@,
        decreases count - index,
    {
        let ghost before = pending@;
        let ghost asked = sockets@;
        let ghost earlier = sent;
        let waiting: usize = pending[index].len();
        let (outcome, moved) = flush_socket(
            &mut sockets[index],
            &mut pending[index],
            tx_packets,
        );
        let left: usize = pending[index].len();
        proof {
            sent = sent.update(index as int, moved@);
            lemma_count_sum_update(earlier, index as int, moved@);
            lemma_bumped_adds(*old(tx_packets), total, moved@);
            total = total + moved@;
            assert forall|i: int| 0 <= i < old(pending)@.len() implies {
                &&& #[trigger] sent[i] <= old(pending)@[i]@.len()
                &&& pending@[i]@ == old(pending)@[i]@.skip(sent[i] as int)
            } by {
                if i != index {
                    assert(sent[i] == earlier[i]);
                    assert(pending@[i] == before[i]);
                } else {
                    assert(earlier[i] == 0);
                    assert(before[i]@ == old(pending)@[i]@.skip(0));
                    assert(old(pending)@[i]@.skip(0) =~= old(pending)@[i]@);
                }
            }
            assert(flush_ran(
                old(sockets)@[index as int],
                sockets@[index as int],
                old(pending)@[index as int]@,
                pending@[index as int]@,
                outcome,
            ));
            assert forall|i: int| #![trigger pending@[i]] 0 <= i < index implies flush_ran(
                old(sockets)@[i],
                sockets@[i],
                old(pending)@[i]@,
                pending@[i]@,
                Ok::<(), SendError>(()),
            ) by {
                assert(pending@[i] == before[i]);
                assert(sockets@[i] == asked[i]);
            }
            assert forall|i: int| index < i < sockets@.len() implies #[trigger] sockets@[i]
                == old(sockets)@[i] by {
                assert(sockets@[i] == asked[i]);
            }
            assert forall|i: int| index < i < pending@.len() implies (#[trigger] pending@[i])@
                == old(pending)@[i]@ by {
                assert(pending@[i] == before[i]);
            }
        }
        if left < waiting {
            progressed = true;
        }
        match outcome {
            Ok(_) => {},
            Err(error) => {
                assert(flushed(old(pending)@, pending@, sent));
                assert(sockets_flushed(
                    old(sockets)@,
                    sockets@,
                    old(pending)@,
                    pending@,
                    Err::<(), SendError>(error),
                    index as int,
                ));
                return Err(TileError::Send(error));
            },
        }
        proof {
            assert forall|i: int| #![trigger pending@[i]] 0 <= i < index + 1 implies flush_ran(
                old(sockets)@[i],
                sockets@[i],
                old(pending)@[i]@,
                pending@[i]@,
                Ok::<(), SendError>(()),
            ) by {
                if i < index {
                    assert(pending@[i] == before[i]);
                }
            }
        }
        index = index + 1;
    }
    assert(sockets_flushed(
        old(sockets)@,
        sockets@,
        old(pending)@,
        pending@,
        Ok::<(), SendError>(()),
        index as int,
    ));
    Ok(progressed)
}

proof fn lemma_count_sum_update(counts: Seq<nat>, index: int, count: nat)
    requires
        0 <= index < counts.len(),
    ensures
        count_sum(counts.update(index, count)) + counts[index] == count_sum(counts) + count,
    decreases counts.len(),
{
    let updated = counts.update(index, count);
    if index == counts.len() - 1 {
        assert(updated.drop_last() =~= counts.drop_last());
    } else {
        assert(updated.drop_last() =~= counts.drop_last().update(index, count));
        lemma_count_sum_update(counts.drop_last(), index, count);
    }
}

/// Completions were reclaimed from every socket.
pub open spec fn sockets_reclaimed<S: UdpSocket>(
    before: Seq<S>,
    after: Seq<S>,
    completed: Seq<usize>,
) -> bool {
    &&& after.len() == before.len()
    &&& completed.len() == before.len()
    &&& forall|i: int|
        0 <= i < completed.len() ==> S::may_reclaim(
            before[i],
            after[i],
            Ok::<usize, Error>(#[trigger] completed[i]),
        )
}

/// Reclaiming completions stopped with `error`. The sockets behind the failing one are
/// as they were.
pub open spec fn reclaim_stopped<S: UdpSocket>(
    before: Seq<S>,
    after: Seq<S>,
    completed: Seq<usize>,
    error: Error,
) -> bool {
    let failed = completed.len() as int;
    &&& failed < before.len()
    &&& forall|i: int|
        0 <= i < failed ==> S::may_reclaim(
            before[i],
            after[i],
            Ok::<usize, Error>(#[trigger] completed[i]),
        )
    &&& S::may_reclaim(before[failed], after[failed], Err::<usize, Error>(error))
    &&& forall|i: int| failed < i < before.len() ==> #[trigger] after[i] == before[i]
}

/// Reclaims the transmit completions of every socket. Returns whether there were any.
pub fn drain_socket_completions<S: UdpSocket>(sockets: &mut [S]) -> (r: Result<bool, TileError>)
    ensures
        final(sockets)@.len() == old(sockets)@.len(),
        match r {
            Ok(progressed) => exists|completed: Seq<usize>|
                {
                    &&& #[trigger] sockets_reclaimed(old(sockets)@, final(sockets)@, completed)
                    &&& progressed == any_completed(completed)
                },
            Err(TileError::Socket(error)) => exists|completed: Seq<usize>| #[trigger]
                reclaim_stopped(old(sockets)@, final(sockets)@, completed, error),
            Err(_) => false,
        },
{
    let mut progressed = false;
    let mut index: usize = 0;
    let ghost mut completed: Seq<usize> = Seq::empty();
    while index < sockets.len()
        invariant
            index <= sockets@.len(),
            sockets@.len() == old(sockets)@.len(),
            completed.len() == index,
            forall|i: int|
                0 <= i < completed.len() ==> S::may_reclaim(
                    old(sockets)@[i],
                    sockets@[i],
                    Ok(#[trigger] completed[i]),
                ),
            forall|i: int| index <= i < sockets@.len() ==> sockets@[i] == old(sockets)@[i],
            progressed == any_completed(completed),
        decreases sockets@.len() - index,
    {
        let ghost earlier = completed;
        let ghost before = sockets@;
        match sockets[index].drain_tx_completions() {
            Ok(count) => {
                proof {
                    completed = completed.push(count);
                    assert forall|i: int| 0 <= i < completed.len() implies S::may_reclaim(
                        old(sockets)@[i],
                        sockets@[i],
                        Ok(#[trigger] completed[i]),
                    ) by {
                        if i < index {
                            assert(completed[i] == earlier[i]);
                            assert(sockets@[i] == before[i]);
                        }
                    }
                    lemma_any_completed_push(earlier, count);
                }
                if count != 0 {
                    progressed = true;
                }
            },
            Err(error) => {
                proof {
                    assert forall|i: int| 0 <= i < completed.len() implies S::may_reclaim(
                        old(sockets)@[i],
                        sockets@[i],
                        Ok(#[trigger] completed[i]),
                    ) by {
                        assert(sockets@[i] == before[i]);
                    }
                    assert forall|i: int| index < i < sockets@.len() implies #[trigger] sockets@[i]
                        == old(sockets)@[i] by {
                        assert(sockets@[i] == before[i]);
                    }
                    assert(reclaim_stopped(old(sockets)@, sockets@, completed, error));
                }
                return Err(TileError::Socket(error));
            },
        }
        index = index + 1;
    }
    assert(sockets_reclaimed(old(sockets)@, sockets@, completed));
    Ok(progressed)
}

/// Some socket had completions.
pub open spec fn any_completed(completed: Seq<usize>) -> bool {
    exists|i: int| 0 <= i < completed.len() && #[trigger] completed[i] != 0
}

proof fn lemma_any_completed_push(completed: Seq<usize>, count: usize)
    ensures
        any_completed(completed.push(count)) == (any_completed(completed) || count != 0),
{
    let longer = completed.push(count);
    if any_completed(completed) {
        let i = choose|i: int| 0 <= i < completed.len() && #[trigger] completed[i] != 0;
        assert(longer[i] != 0);
    }
    if count != 0 {
        assert(longer[completed.len() as int] != 0);
    }
    if any_completed(longer) {
        let i = choose|i: int| 0 <= i < longer.len() && #[trigger] longer[i] != 0;
        if i < completed.len() {
            assert(completed[i] != 0);
        }
    }
}

/// A transmit buffer is consistent and names an existing socket.
pub open spec fn tx_buffer_ok<S: UdpSocket>(buffer: TileTxBuffer<S>, sockets: nat) -> bool {
    buffer.buffer_spec().wf() && buffer.source_spec().value() < sockets
}

/// How many buffers one refill of a lane asks for.
pub open spec fn refill_target(config: TileConfig, queued: nat, capacity: nat) -> int {
    if queued >= config.tx_buffer_refill_watermark {
        0
    } else {
        smaller(config.tx_buffer_refill_batch as int, capacity - queued)
    }
}

/// The share of `target` buffers that each of `sockets` sockets is asked for.
pub open spec fn refill_share(target: int, sockets: int) -> int {
    piece_count(target, sockets)
}

/// The sockets gave `given`, one after the other: each was asked for its share,
/// or for what was left of `target`.
pub open spec fn buffers_given<S: UdpSocket>(
    before: Seq<S>,
    after: Seq<S>,
    target: int,
    given: Seq<Seq<UdpTxBufferMut<S>>>,
) -> bool {
    &&& given.len() <= before.len()
    &&& forall|i: int|
        0 <= i < given.len() ==> S::may_allocate(
            before[i],
            after[i],
            smaller(
                refill_share(target, before.len() as int),
                target - stream_total(given.take(i)),
            ) as usize,
            #[trigger] given[i],
            Ok::<usize, Error>(given[i].len() as usize),
        )
}

/// Behind its first `held` buffers the queue holds the given ones in order, each
/// with the index of its socket.
pub open spec fn holds_given<S: UdpSocket>(
    queue: Seq<TileTxBuffer<S>>,
    held: nat,
    given: Seq<Seq<UdpTxBufferMut<S>>>,
) -> bool {
    &&& queue.len() == held + stream_total(given)
    &&& forall|i: int, k: int|
        0 <= i < given.len() && 0 <= k < given[i].len() ==> {
            let buffer = queue[held + stream_total(given.take(i)) + k];
            buffer.buffer_spec() == (#[trigger] given[i][k]) && buffer.source_spec().value() == i
        }
}

/// A lane's free transmit buffers were topped up from the sockets, if there were too
/// few of them.
pub open spec fn topped_up<S: UdpSocket>(
    before: SpscRing<TileTxBuffer<S>>,
    after: SpscRing<TileTxBuffer<S>>,
    sockets_before: Seq<S>,
    sockets_after: Seq<S>,
    config: TileConfig,
) -> bool {
    let target = refill_target(config, before@.len(), before.spec_capacity());
    &&& sockets_after.len() == sockets_before.len()
    &&& before@.is_prefix_of(after@)
    &&& if target <= 0 {
        &&& after@ == before@
        &&& sockets_after == sockets_before
    } else {
        exists|given: Seq<Seq<UdpTxBufferMut<S>>>|
            {
                &&& #[trigger] buffers_given(sockets_before, sockets_after, target, given)
                &&& holds_given(after@, before@.len(), given)
                &&& given.len() == sockets_before.len() || stream_total(given) == target
                &&& forall|i: int|
                    given.len() <= i < sockets_before.len() ==> #[trigger] sockets_after[i]
                        == sockets_before[i]
            }
    }
}

/// Topping up a lane's free transmit buffers stopped at a socket whose allocation failed
/// with `error`. The buffers of the earlier sockets were added, and the sockets behind it
/// are as they were.
pub open spec fn top_up_failed<S: UdpSocket>(
    before: SpscRing<TileTxBuffer<S>>,
    after: SpscRing<TileTxBuffer<S>>,
    sockets_before: Seq<S>,
    sockets_after: Seq<S>,
    config: TileConfig,
    error: Error,
) -> bool {
    let target = refill_target(config, before@.len(), before.spec_capacity());
    &&& sockets_after.len() == sockets_before.len()
    &&& before@.is_prefix_of(after@)
    &&& target > 0
    &&& exists|given: Seq<Seq<UdpTxBufferMut<S>>>, fresh: Seq<UdpTxBufferMut<S>>|
        {
            &&& buffers_given(sockets_before, sockets_after, target, given)
            &&& holds_given(after@, before@.len(), given)
            &&& stream_total(given) < target
            &&& #[trigger] allocation_failed(
                sockets_before,
                sockets_after,
                target,
                given,
                fresh,
                error,
            )
        }
}

/// After the sockets before it gave `given`, the next socket failed with `error` to
/// allocate its share of `target`. The sockets behind it are as they were.
pub open spec fn allocation_failed<S: UdpSocket>(
    before: Seq<S>,
    after: Seq<S>,
    target: int,
    given: Seq<Seq<UdpTxBufferMut<S>>>,
    fresh: Seq<UdpTxBufferMut<S>>,
    error: Error,
) -> bool {
    let failed = given.len() as int;
    &&& failed < before.len()
    &&& S::may_allocate(
        before[failed],
        after[failed],
        smaller(refill_share(target, before.len() as int), target - stream_total(given)) as usize,
        fresh,
        Err::<usize, Error>(error),
    )
    &&& forall|i: int| failed < i < before.len() ==> #[trigger] after[i] == before[i]
}

/// Tops up the transmit buffers of one lane when it is below the watermark,
/// asking each socket for an equal share.
pub fn refill_lane<S: UdpSocket>(
    queue: &mut SpscRing<TileTxBuffer<S>>,
    sockets: &mut [S],
    config: TileConfig,
) -> (r: Result<bool, TileError>)
    requires
        old(queue).wf(),
        0 < old(sockets)@.len() <= 0x1_0000,
    ensures
        final(queue).wf(),
        final(queue).spec_capacity() == old(queue).spec_capacity(),
        final(sockets)@.len() == old(sockets)@.len(),
        old(queue)@.is_prefix_of(final(queue)@),
        final(queue)@.len() <= old(queue)@.len() + refill_target(
            config,
            old(queue)@.len(),
            old(queue).spec_capacity(),
        ),
        forall|i: int|
            old(queue)@.len() <= i < final(queue)@.len() ==> tx_buffer_ok(
                #[trigger] final(queue)@[i],
                old(sockets)@.len(),
            ),
        match r {
            Ok(progressed) => {
                &&& topped_up(*old(queue), *final(queue), old(sockets)@, final(sockets)@, config)
                &&& progressed == (final(queue)@.len() > old(queue)@.len())
            },
            Err(TileError::Socket(error)) => top_up_failed(
                *old(queue),
                *final(queue),
                old(sockets)@,
                final(sockets)@,
                config,
                error,
            ),
            Err(_) => false,
        },
{
    proof {
        queue.lemma_bounded();
    }
    if queue.len() >= config.tx_buffer_refill_watermark {
        return Ok(false);
    }
    let room: usize = queue.remaining_capacity();
    let target: usize = if config.tx_buffer_refill_batch < room {
        config.tx_buffer_refill_batch
    } else {
        room
    };
    if target == 0 {
        return Ok(false);
    }
    let count: usize = sockets.len();
    proof {
        lemma_piece_count(target as int, count as int);
    }
    let whole: usize = target / count;
    let per_socket: usize = if target % count > 0 {
        whole + 1
    } else {
        whole
    };
    let ghost held = queue@.len();
    let ghost mut given: Seq<Seq<UdpTxBufferMut<S>>> = Seq::empty();
    let mut progressed = false;
    let mut remaining: usize = target;
    let mut index: usize = 0;
    while index < count && remaining > 0
        invariant
            index <= count,
            count == sockets@.len(),
            0 < count <= 0x1_0000,
            sockets@.len() == old(sockets)@.len(),
            remaining <= target,
            target == refill_target(config, held, old(queue).spec_capacity()),
            target <= old(queue).spec_capacity() - held,
            per_socket == refill_share(target as int, count as int),
            held == old(queue)@.len(),
            queue.wf(),
            queue.spec_capacity() == old(queue).spec_capacity(),
            old(queue)@.is_prefix_of(queue@),
            queue@.len() + remaining == held + target,
            forall|i: int|
                held <= i < queue@.len() ==> tx_buffer_ok(
                    #[trigger] queue@[i],
                    old(sockets)@.len(),
                ),
            progressed == (queue@.len() > held),
            given.len() == index,
            buffers_given(old(sockets)@, sockets@, target as int, given),
            holds_given(queue@, held, given),
            forall|i: int| index <= i < count ==> sockets@[i] == old(sockets)@[i],
        decreases count - index,
    {
        let request: usize = if remaining < per_socket {
            remaining
        } else {
            per_socket
        };
        let ghost asked = sockets@;
        let ghost earlier = given;
        let mut fresh: Vec<UdpTxBufferMut<S>> = Vec::new();
        let outcome = sockets[index].allocate_tx_batch(&mut fresh, request);
        assert(S::may_allocate(
            asked[index as int],
            sockets@[index as int],
            request,
            fresh@.skip(0),
            outcome,
        ));
        if let Err(error) = outcome {
            proof {
                assert forall|i: int| 0 <= i < given.len() implies S::may_allocate(
                    old(sockets)@[i],
                    sockets@[i],
                    smaller(
                        refill_share(target as int, old(sockets)@.len() as int),
                        target - stream_total(given.take(i)),
                    ) as usize,
                    #[trigger] given[i],
                    Ok::<usize, Error>(given[i].len() as usize),
                ) by {
                    assert(sockets@[i] == asked[i]);
                }
                assert(buffers_given(old(sockets)@, sockets@, target as int, given));
                assert forall|i: int| index < i < sockets@.len() implies #[trigger] sockets@[i]
                    == old(sockets)@[i] by {
                    assert(sockets@[i] == asked[i]);
                }
                assert(allocation_failed(
                    old(sockets)@,
                    sockets@,
                    target as int,
                    given,
                    fresh@.skip(0),
                    error,
                ));
            }
            return Err(TileError::Socket(error));
        }
        let source = SocketIndex::new(index as u16);
        if fresh.len() > 0 {
            progressed = true;
        }
        let ghost block = fresh@;
        let ghost start = queue@;
        proof {
            assert(fresh.len() == fresh@.len());
            assert(fresh@.skip(0) =~= fresh@);
            assert(outcome == Ok::<usize, Error>(block.len() as usize));
            assert(S::may_allocate(
                asked[index as int],
                sockets@[index as int],
                request,
                block,
                Ok::<usize, Error>(block.len() as usize),
            ));
        }
        let mut left = crate::ring::reversed(fresh);
        while left.len() > 0
            invariant
                left@.len() <= remaining,
                remaining <= target,
                held == old(queue)@.len(),
                count <= 0x1_0000,
                index < count,
                count == old(sockets)@.len(),
                target <= old(queue).spec_capacity() - held,
                source.value() == index,
                queue.wf(),
                queue.spec_capacity() == old(queue).spec_capacity(),
                start.is_prefix_of(queue@),
                queue@.len() + remaining == held + target,
                queue@.len() == start.len() + (block.len() - left@.len()),
                forall|i: int| 0 <= i < left@.len() ==> (#[trigger] left@[i]).wf(),
                forall|i: int|
                    0 <= i < left@.len() ==> (#[trigger] left@[i]) == block[block.len() - 1 - i],
                forall|k: int|
                    0 <= k < block.len() - left@.len() ==> {
                        &&& (#[trigger] queue@[start.len() + k]).buffer_spec() == block[k]
                        &&& queue@[start.len() + k].source_spec().value() == index
                    },
                forall|i: int|
                    held <= i < queue@.len() ==> tx_buffer_ok(
                        #[trigger] queue@[i],
                        old(sockets)@.len(),
                    ),
            decreases left@.len(),
        {
            if let Some(buffer) = left.pop() {
                let ghost before = queue@;
                let wrapped = TileTxBuffer::new(source, buffer);
                let _ = queue.push(wrapped);
                proof {
                    assert(queue@ == before.push(wrapped));
                    assert forall|i: int| held <= i < queue@.len() implies tx_buffer_ok(
                        #[trigger] queue@[i],
                        old(sockets)@.len(),
                    ) by {
                        if i < before.len() {
                            assert(queue@[i] == before[i]);
                        }
                    }
                }
                remaining = remaining - 1;
            }
        }
        proof {
            given = given.push(block);
            assert(given.drop_last() =~= earlier);
            assert forall|i: int| 0 <= i < given.len() implies S::may_allocate(
                old(sockets)@[i],
                sockets@[i],
                smaller(
                    refill_share(target as int, old(sockets)@.len() as int),
                    target - stream_total(given.take(i)),
                ) as usize,
                #[trigger] given[i],
                Ok::<usize, Error>(given[i].len() as usize),
            ) by {
                if i < index {
                    assert(sockets@[i] == asked[i]);
                    assert(given[i] == earlier[i]);
                    assert(given.take(i) =~= earlier.take(i));
                } else {
                    assert(given.take(i) =~= earlier);
                }
            }
            assert forall|i: int, k: int|
                0 <= i < given.len() && 0 <= k < given[i].len() implies ({
                let buffer = queue@[held + stream_total(given.take(i)) + k];
                buffer.buffer_spec() == (#[trigger] given[i][k]) && buffer.source_spec().value()
                    == i
            }) by {
                if i < index {
                    assert(given.take(i) =~= earlier.take(i));
                    assert(given[i] == earlier[i]);
                    lemma_stream_position(earlier, i, k);
                    let at = held + stream_total(earlier.take(i)) + k;
                    assert(earlier[i][k] == given[i][k]);
                    assert(queue@[at] == start[at]);
                } else {
                    assert(given.take(i) =~= earlier);
                    assert(queue@[start.len() + k].buffer_spec() == block[k]);
                }
            }
        }
        index = index + 1;
    }
    Ok(progressed)
}

/// A position inside one of the sequences lies below the total.
proof fn lemma_stream_position<P>(streams: Seq<Seq<P>>, i: int, k: int)
    requires
        0 <= i < streams.len(),
        0 <= k < streams[i].len(),
    ensures
        stream_total(streams.take(i)) + k < stream_total(streams),
    decreases streams.len(),
{
    let last = streams.len() - 1;
    assert(streams.take(last) =~= streams.drop_last());
    if i < last {
        assert(streams.drop_last().take(i) =~= streams.take(i));
        lemma_stream_position(streams.drop_last(), i, k);
    }
}

/// The number of items in all lists.
pub open spec fn list_total<T>(lists: Seq<Vec<T>>) -> nat
    decreases lists.len(),
{
    if lists.len() == 0 {
        0
    } else {
        list_total(lists.drop_last()) + lists.last()@.len()
    }
}

/// The transmit work that all lanes hold, put aside or queued.
pub open spec fn work_total<W>(deferred: Seq<Option<W>>, queues: Seq<SpscRing<W>>) -> nat
    decreases queues.len(),
{
    if queues.len() == 0 {
        0
    } else {
        work_total(deferred.drop_last(), queues.drop_last()) + work_list(
            deferred.last(),
            queues.last()@,
        ).len()
    }
}

/// What a flush removed is missing from the lists.
pub proof fn lemma_list_total_flushed<T>(before: Seq<Vec<T>>, after: Seq<Vec<T>>, sent: Seq<nat>)
    requires
        flushed(before, after, sent),
    ensures
        list_total(after) + count_sum(sent) == list_total(before),
    decreases before.len(),
{
    if before.len() > 0 {
        let last = before.len() - 1;
        assert(sent[last] <= before[last]@.len());
        assert forall|i: int| 0 <= i < last implies #[trigger] sent.drop_last()[i]
            <= before.drop_last()[i]@.len() && after.drop_last()[i]@
            == before.drop_last()[i]@.skip(sent.drop_last()[i] as int) by {
            assert(sent[i] <= before[i]@.len());
        }
        lemma_list_total_flushed(before.drop_last(), after.drop_last(), sent.drop_last());
    }
}

proof fn lemma_list_total_assigned<B>(
    before: Seq<Vec<TxSlot<UdpTransmit<B>>>>,
    after: Seq<Vec<TxSlot<UdpTransmit<B>>>>,
    items: Seq<UdpTransmit<B>>,
    targets: Seq<int>,
)
    requires
        after.len() == before.len(),
        forall|b: int|
            0 <= b < before.len() ==> (#[trigger] after[b])@ == before[b]@ + assigned(
                items,
                targets,
                b,
            ),
    ensures
        list_total(after) == list_total(before) + assigned_total(items, targets, before.len()),
    decreases before.len(),
{
    if before.len() > 0 {
        let last = before.len() - 1;
        assert(after[last]@ == before[last]@ + assigned(items, targets, last));
        assert forall|b: int| 0 <= b < last implies (#[trigger] after.drop_last()[b])@
            == before.drop_last()[b]@ + assigned(items, targets, b) by {
            assert(after[b]@ == before[b]@ + assigned(items, targets, b));
        }
        lemma_list_total_assigned(before.drop_last(), after.drop_last(), items, targets);
    }
}

/// A change in one lane changes the total by that lane's change.
pub proof fn lemma_work_total_update<W>(
    deferred: Seq<Option<W>>,
    queues: Seq<SpscRing<W>>,
    deferred_after: Seq<Option<W>>,
    queues_after: Seq<SpscRing<W>>,
    lane: int,
)
    requires
        deferred.len() == queues.len(),
        deferred_after.len() == deferred.len(),
        queues_after.len() == queues.len(),
        0 <= lane < queues.len(),
        forall|l: int|
            0 <= l < queues.len() && l != lane ==> (#[trigger] queues_after[l]) == queues[l]
                && deferred_after[l] == deferred[l],
    ensures
        work_total(deferred_after, queues_after) + work_list(deferred[lane], queues[lane]@).len()
            == work_total(deferred, queues) + work_list(
            deferred_after[lane],
            queues_after[lane]@,
        ).len(),
    decreases queues.len(),
{
    let last = queues.len() - 1;
    if lane == last {
        assert(deferred_after.drop_last() =~= deferred.drop_last()) by {
            assert forall|l: int| 0 <= l < last implies deferred_after[l] == deferred[l] by {
                assert(queues_after[l] == queues[l]);
            }
        }
        assert(queues_after.drop_last() =~= queues.drop_last());
    } else {
        assert(queues_after[last] == queues[last]);
        let deferred_front = deferred.drop_last();
        let queues_front = queues.drop_last();
        let deferred_front_after = deferred_after.drop_last();
        let queues_front_after = queues_after.drop_last();
        assert forall|l: int| 0 <= l < queues_front.len() && l != lane implies (
        #[trigger] queues_front_after[l]) == queues_front[l] && deferred_front_after[l]
            == deferred_front[l] by {
            assert(queues_after[l] == queues[l]);
            assert(deferred_after[l] == deferred[l]);
        }
        lemma_work_total_update(
            deferred_front,
            queues_front,
            deferred_front_after,
            queues_front_after,
            lane,
        );
    }
}

proof fn lemma_work_total_at<W>(deferred: Seq<Option<W>>, queues: Seq<SpscRing<W>>, lane: int)
    requires
        deferred.len() == queues.len(),
        0 <= lane < queues.len(),
    ensures
        work_list(deferred[lane], queues[lane]@).len() <= work_total(deferred, queues),
    decreases queues.len(),
{
    if lane < queues.len() - 1 {
        lemma_work_total_at(deferred.drop_last(), queues.drop_last(), lane);
    }
}

/// A lane's work is consistent.
pub open spec fn lane_work_ok<B, W: TxWork<B>>(deferred: Option<W>, queue: SpscRing<W>) -> bool {
    &&& queue.wf()
    &&& forall|i: int|
        0 <= i < work_list(deferred, queue@).len() ==> (#[trigger] work_list(
            deferred,
            queue@,
        )[i]).work_wf()
}

/// The turn counter does not wrap while `rounds` rounds over all sockets are made.
pub open spec fn turns_fit(turn: usize, rounds: nat, sockets: nat) -> bool {
    turn + rounds * sockets <= usize::MAX
}

proof fn lemma_turns_of_lane(
    turn: int,
    first: int,
    moved: int,
    lanes: int,
    work: int,
    total: int,
    all_lanes: int,
    sockets: int,
)
    requires
        0 <= sockets,
        turn <= first + (moved + lanes) * sockets,
        moved + work <= total,
        lanes < all_lanes,
        first + (total + all_lanes) * sockets <= usize::MAX,
    ensures
        turn + work * sockets + sockets <= usize::MAX,
{
    assert(turn + work * sockets + sockets <= first + (moved + work + lanes + 1) * sockets)
        by (nonlinear_arith)
        requires
            turn <= first + (moved + lanes) * sockets,
    ;
    assert((moved + work + lanes + 1) * sockets <= (total + all_lanes) * sockets)
        by (nonlinear_arith)
        requires
            moved + work + lanes + 1 <= total + all_lanes,
            0 <= sockets,
    ;
}

/// The work of every lane in order.
pub open spec fn backlogs<W>(deferred: Seq<Option<W>>, queues: Seq<SpscRing<W>>) -> Seq<Seq<W>> {
    Seq::new(queues.len(), |l: int| work_list(deferred[l], queues[l]@))
}

/// The lane `l` moved `items[l]` of its work to the sockets `targets[l]`, which took
/// the pending packets from `stages[l]` to `stages[l + 1]`. Only `open` sockets get
/// work. It stays with the socket that its buffer came from, or rotates over the open
/// sockets if it may be retargeted.
pub open spec fn lane_moved<B, W: TxWork<B>>(
    works: Seq<Seq<W>>,
    lefts: Seq<Seq<W>>,
    stages: Seq<Seq<Vec<TxSlot<UdpTransmit<B>>>>>,
    drops: Seq<u64>,
    items: Seq<Seq<UdpTransmit<B>>>,
    targets: Seq<Seq<int>>,
    turns: Seq<usize>,
    open: Seq<bool>,
    capacity: nat,
    batch_size: usize,
    can_retarget: bool,
    l: int,
) -> bool {
    &&& moved_work(
        works[l],
        lefts[l],
        stages[l],
        stages[l + 1],
        drops[l],
        drops[l + 1],
        items[l],
        targets[l],
    )
    &&& forall|i: int|
        0 <= i < targets[l].len() && #[trigger] targets[l][i] != -1 ==> open[targets[l][i]] && (
        can_retarget || targets[l][i] == works[l][i].source())
    &&& if can_retarget {
        rotated(
            open,
            capacity,
            batch_size,
            works[l].len() as int,
            stages[l],
            items[l],
            targets[l],
            turns[l],
            turns[l + 1],
        )
    } else {
        turns[l + 1] == turns[l]
    }
}

/// The lanes moved work one after the other, each as far as it went.
pub open spec fn lanes_moved<B, W: TxWork<B>>(
    works: Seq<Seq<W>>,
    lefts: Seq<Seq<W>>,
    stages: Seq<Seq<Vec<TxSlot<UdpTransmit<B>>>>>,
    drops: Seq<u64>,
    items: Seq<Seq<UdpTransmit<B>>>,
    targets: Seq<Seq<int>>,
    turns: Seq<usize>,
    open: Seq<bool>,
    capacity: nat,
    batch_size: usize,
    can_retarget: bool,
) -> bool {
    &&& lefts.len() == works.len()
    &&& stages.len() == works.len() + 1
    &&& drops.len() == works.len() + 1
    &&& items.len() == works.len()
    &&& targets.len() == works.len()
    &&& turns.len() == works.len() + 1
    &&& forall|l: int|
        0 <= l < works.len() ==> #[trigger] lane_moved(
            works,
            lefts,
            stages,
            drops,
            items,
            targets,
            turns,
            open,
            capacity,
            batch_size,
            can_retarget,
            l,
        )
}

/// The lanes' work went from `works` to `lefts`, and what left it went to the pending
/// packets, from `before` to `after`, or was counted as dropped.
pub open spec fn work_moved<B, W: TxWork<B>>(
    works: Seq<Seq<W>>,
    lefts: Seq<Seq<W>>,
    before: Seq<Vec<TxSlot<UdpTransmit<B>>>>,
    after: Seq<Vec<TxSlot<UdpTransmit<B>>>>,
    drops_before: u64,
    drops_after: u64,
    turn_before: usize,
    turn_after: usize,
    open: Seq<bool>,
    capacity: nat,
    batch_size: usize,
    can_retarget: bool,
) -> bool {
    exists|
        stages: Seq<Seq<Vec<TxSlot<UdpTransmit<B>>>>>,
        drops: Seq<u64>,
        items: Seq<Seq<UdpTransmit<B>>>,
        targets: Seq<Seq<int>>,
        turns: Seq<usize>,
    |
        {
            &&& #[trigger] lanes_moved(
                works,
                lefts,
                stages,
                drops,
                items,
                targets,
                turns,
                open,
                capacity,
                batch_size,
                can_retarget,
            )
            &&& turns[0] == turn_before
            &&& turns.last() == turn_after
            &&& stages[0] == before
            &&& stages.last() == after
            &&& drops[0] == drops_before
            &&& drops.last() == drops_after
        }
}

/// Moves the work of all lanes to the sockets' pending packets. With
/// `can_retarget` any open socket may take it, otherwise only its source.
///
/// Work that leaves a lane is pending afterwards or counted as dropped.
pub fn drain_lane_work<B, W: TxWork<B>>(
    queues: &mut Vec<SpscRing<W>>,
    deferred: &mut Vec<Option<W>>,
    pending: &mut Vec<Vec<TxSlot<UdpTransmit<B>>>>,
    admission: &TxAdmission,
    can_retarget: bool,
    batch_size: usize,
    next_tx_socket: &mut usize,
    tx_drops: &mut u64,
) -> (r: bool)
    requires
        old(queues)@.len() == old(deferred)@.len(),
        admission.wf(),
        admission@.len() == old(pending)@.len(),
        batch_size > 0,
        forall|l: int|
            #![trigger old(queues)@[l]]
            0 <= l < old(queues)@.len() ==> lane_work_ok::<B, W>(
                old(deferred)@[l],
                old(queues)@[l],
            ),
    ensures
        final(queues)@.len() == old(queues)@.len(),
        final(deferred)@.len() == old(deferred)@.len(),
        final(pending)@.len() == old(pending)@.len(),
        list_total(old(pending)@) <= list_total(final(pending)@),
        forall|b: int|
            0 <= b < final(pending)@.len() ==> old(pending)@[b]@.is_prefix_of(
                (#[trigger] final(pending)@[b])@,
            ),
        !can_retarget || turns_fit(
            *old(next_tx_socket),
            work_total(old(deferred)@, old(queues)@) + old(queues)@.len(),
            old(pending)@.len(),
        ) ==> forall|l: int|
            0 <= l < final(queues)@.len() ==> lane_stuck::<B, W>(
                work_list(final(deferred)@[l], (#[trigger] final(queues)@[l])@),
                admission@,
                admission.limit(),
                final(pending)@,
            ),
        turns_fit(
            *old(next_tx_socket),
            work_total(old(deferred)@, old(queues)@) + old(queues)@.len(),
            old(pending)@.len(),
        ) ==> *final(next_tx_socket) <= *old(next_tx_socket) + (work_total(
            old(deferred)@,
            old(queues)@,
        ) - work_total(final(deferred)@, final(queues)@) + old(queues)@.len())
            * old(pending)@.len(),
        work_total(final(deferred)@, final(queues)@) <= work_total(old(deferred)@, old(queues)@),
        forall|l: int|
            #![trigger final(queues)@[l]]
            0 <= l < final(queues)@.len() ==> {
                &&& lane_work_ok::<B, W>(final(deferred)@[l], final(queues)@[l])
                &&& final(queues)@[l].spec_capacity() == old(queues)@[l].spec_capacity()
            },
        exists|dropped: nat|
            {
                &&& *final(tx_drops) == #[trigger] bumped(*old(tx_drops), dropped)
                &&& list_total(final(pending)@) + work_total(final(deferred)@, final(queues)@)
                    + dropped == list_total(old(pending)@) + work_total(
                    old(deferred)@,
                    old(queues)@,
                )
                &&& r == (work_total(final(deferred)@, final(queues)@) < work_total(
                    old(deferred)@,
                    old(queues)@,
                ))
            },
        work_moved(
            backlogs(old(deferred)@, old(queues)@),
            backlogs(final(deferred)@, final(queues)@),
            old(pending)@,
            final(pending)@,
            *old(tx_drops),
            *final(tx_drops),
            *old(next_tx_socket),
            *final(next_tx_socket),
            admission@,
            admission.limit(),
            batch_size,
            can_retarget,
        ),
        forall|b: int|
            0 <= b < final(pending)@.len() && old(pending)@[b]@.len() <= admission.limit() ==> (
            #[trigger] final(pending)@[b])@.len() <= admission.limit(),
{
    let count: usize = queues.len();
    let ghost works = backlogs(deferred@, queues@);
    let ghost mut stages: Seq<Seq<Vec<TxSlot<UdpTransmit<B>>>>> = seq![pending@];
    let ghost mut drops: Seq<u64> = seq![*tx_drops];
    let ghost mut all_items: Seq<Seq<UdpTransmit<B>>> = Seq::empty();
    let ghost mut all_targets: Seq<Seq<int>> = Seq::empty();
    let ghost mut turns: Seq<usize> = seq![*next_tx_socket];
    let ghost fits = turns_fit(
        *next_tx_socket,
        work_total(deferred@, queues@) + queues@.len(),
        pending@.len(),
    );
    let mut progressed = false;
    let ghost mut dropped: nat = 0;
    let mut lane: usize = 0;
    proof {
        lemma_bumped_adds(*tx_drops, 0, 0);
    }
    while lane < count
        invariant
            lane <= count,
            count == queues@.len(),
            queues@.len() == old(queues)@.len(),
            deferred@.len() == queues@.len(),
            old(deferred)@.len() == old(queues)@.len(),
            pending@.len() == old(pending)@.len(),
            admission.wf(),
            admission@.len() == pending@.len(),
            batch_size > 0,
            forall|l: int|
                #![trigger queues@[l]]
                0 <= l < queues@.len() ==> {
                    &&& lane_work_ok::<B, W>(deferred@[l], queues@[l])
                    &&& queues@[l].spec_capacity() == old(queues)@[l].spec_capacity()
                },
            *tx_drops == bumped(*old(tx_drops), dropped),
            list_total(pending@) + work_total(deferred@, queues@) + dropped == list_total(
                old(pending)@,
            ) + work_total(old(deferred)@, old(queues)@),
            work_total(deferred@, queues@) <= work_total(old(deferred)@, old(queues)@),
            list_total(old(pending)@) <= list_total(pending@),
            forall|b: int|
                0 <= b < pending@.len() ==> old(pending)@[b]@.is_prefix_of(
                    (#[trigger] pending@[b])@,
                ),
            fits == turns_fit(
                *old(next_tx_socket),
                work_total(old(deferred)@, old(queues)@) + old(queues)@.len(),
                old(pending)@.len(),
            ),
            !can_retarget || fits ==> forall|l: int|
                0 <= l < lane ==> lane_stuck::<B, W>(
                    work_list(deferred@[l], (#[trigger] queues@[l])@),
                    admission@,
                    admission.limit(),
                    pending@,
                ),
            fits ==> *next_tx_socket <= *old(next_tx_socket) + (work_total(
                old(deferred)@,
                old(queues)@,
            ) - work_total(deferred@, queues@) + lane) * old(pending)@.len(),
            progressed == (work_total(deferred@, queues@) < work_total(
                old(deferred)@,
                old(queues)@,
            )),
            forall|b: int|
                0 <= b < pending@.len() && old(pending)@[b]@.len() <= admission.limit() ==> (
                #[trigger] pending@[b])@.len() <= admission.limit(),
            works == backlogs(old(deferred)@, old(queues)@),
            stages.len() == lane + 1,
            drops.len() == lane + 1,
            all_items.len() == lane,
            all_targets.len() == lane,
            stages[0] == old(pending)@,
            stages[lane as int] == pending@,
            drops[0] == *old(tx_drops),
            drops[lane as int] == *tx_drops,
            turns.len() == lane + 1,
            turns[0] == *old(next_tx_socket),
            turns[lane as int] == *next_tx_socket,
            forall|l: int|
                0 <= l < lane ==> #[trigger] lane_moved(
                    works,
                    backlogs(deferred@, queues@),
                    stages,
                    drops,
                    all_items,
                    all_targets,
                    turns,
                    admission@,
                    admission.limit(),
                    batch_size,
                    can_retarget,
                    l,
                ),
            forall|l: int|
                lane <= l < count ==> #[trigger] works[l] == work_list(deferred@[l], queues@[l]@),
        decreases count - lane,
    {
        let ghost queues_before = queues@;
        let ghost stages_before = stages;
        let ghost drops_list = drops;
        let ghost items_before = all_items;
        let ghost targets_before = all_targets;
        let ghost turns_before = turns;
        let ghost deferred_before = deferred@;
        let ghost pending_before = pending@;
        let ghost drops_before = *tx_drops;
        let ghost work = work_list(deferred@[lane as int], queues@[lane as int]@);
        assert(lane_work_ok::<B, W>(deferred@[lane as int], queues@[lane as int]));
        let ghost turn = *next_tx_socket;
        let ghost moved_before = work_total(old(deferred)@, old(queues)@) - work_total(
            deferred@,
            queues@,
        );
        proof {
            lemma_work_total_at(deferred@, queues@, lane as int);
            if fits {
                lemma_turns_of_lane(
                    turn as int,
                    *old(next_tx_socket) as int,
                    moved_before,
                    lane as int,
                    work.len() as int,
                    work_total(old(deferred)@, old(queues)@) as int,
                    count as int,
                    pending@.len() as int,
                );
            }
        }
        let moved = if can_retarget {
            drain_retargetable_tx_queue(
                &mut queues[lane],
                &mut deferred[lane],
                pending,
                admission,
                batch_size,
                next_tx_socket,
                tx_drops,
            )
        } else {
            drain_source_local_tx_queue(
                &mut queues[lane],
                &mut deferred[lane],
                pending,
                admission,
                tx_drops,
            )
        };
        proof {
            let left = work_list(deferred@[lane as int], queues@[lane as int]@);
            let (items, targets) = choose|items: Seq<UdpTransmit<B>>, targets: Seq<int>|
                {
                    &&& #[trigger] moved_work(
                        work,
                        left,
                        pending_before,
                        pending@,
                        drops_before,
                        *tx_drops,
                        items,
                        targets,
                    )
                    &&& moved == (targets.len() > 0)
                    &&& forall|i: int|
                        0 <= i < targets.len() && #[trigger] targets[i] != -1
                            ==> admission@[targets[i]] && (can_retarget || targets[i]
                            == work[i].source())
                    &&& can_retarget ==> rotated(
                        admission@,
                        admission.limit(),
                        batch_size,
                        work.len() as int,
                        pending_before,
                        items,
                        targets,
                        turn,
                        *next_tx_socket,
                    )
                };
            let lefts = backlogs(deferred@, queues@);
            stages = stages.push(pending@);
            drops = drops.push(*tx_drops);
            all_items = all_items.push(items);
            all_targets = all_targets.push(targets);
            turns = turns.push(*next_tx_socket);
            assert(works[lane as int] == work);
            assert(lefts[lane as int] == left);
            assert forall|l: int| 0 <= l < lane + 1 implies #[trigger] lane_moved(
                works,
                lefts,
                stages,
                drops,
                all_items,
                all_targets,
                turns,
                admission@,
                admission.limit(),
                batch_size,
                can_retarget,
                l,
            ) by {
                if l < lane {
                    assert(lane_moved(
                        works,
                        backlogs(deferred_before, queues_before),
                        stages_before,
                        drops_list,
                        items_before,
                        targets_before,
                        turns_before,
                        admission@,
                        admission.limit(),
                        batch_size,
                        can_retarget,
                        l,
                    ));
                    assert(queues@[l] == queues_before[l]);
                    assert(deferred@[l] == deferred_before[l]);
                    assert(lefts[l] == backlogs(deferred_before, queues_before)[l]);
                    assert(all_targets[l] == targets_before[l]);
                    assert(all_items[l] == items_before[l]);
                    assert(stages[l] == stages_before[l]);
                    assert(stages[l + 1] == stages_before[l + 1]);
                    assert(drops[l] == drops_list[l]);
                    assert(drops[l + 1] == drops_list[l + 1]);
                    assert(turns[l] == turns_before[l]);
                    assert(turns[l + 1] == turns_before[l + 1]);
                }
            }
            assert forall|l: int| lane < l < count implies #[trigger] works[l] == work_list(
                deferred@[l],
                queues@[l]@,
            ) by {
                assert(queues@[l] == queues_before[l]);
                assert(deferred@[l] == deferred_before[l]);
            }
            assert forall|i: int| 0 <= i < targets.len() implies #[trigger] targets[i] == -1 || 0
                <= targets[i] < pending_before.len() by {}
            law_no_work_is_lost(items, targets, pending_before.len());
            lemma_list_total_assigned(pending_before, pending@, items, targets);
            lemma_work_total_update(
                deferred_before,
                queues_before,
                deferred@,
                queues@,
                lane as int,
            );
            lemma_bumped_adds(*old(tx_drops), dropped, dropped_count(targets));
            dropped = dropped + dropped_count(targets);
            assert forall|b: int| 0 <= b < pending@.len() implies old(pending)@[b]@.is_prefix_of(
                (#[trigger] pending@[b])@,
            ) && pending_before[b]@.len() <= pending@[b]@.len() by {
                assert(pending@[b]@ == pending_before[b]@ + assigned(items, targets, b));
                assert(old(pending)@[b]@.is_prefix_of(pending_before[b]@));
            }
            if fits {
                if can_retarget {
                    assert(*next_tx_socket <= turn + (work.len() - left.len()) * pending@.len()
                        + pending@.len());
                } else {
                    assert(0 <= (work.len() - left.len()) * pending@.len()) by (nonlinear_arith)
                        requires
                            work.len() >= left.len(),
                    ;
                }
                assert((moved_before + (work.len() - left.len()) + lane + 1) * pending@.len() == (
                moved_before + lane) * pending@.len() + (work.len() - left.len()) * pending@.len()
                    + pending@.len()) by (nonlinear_arith);
            }
            if !can_retarget || fits {
                assert forall|l: int| 0 <= l < lane + 1 implies lane_stuck::<B, W>(
                    work_list(deferred@[l], (#[trigger] queues@[l])@),
                    admission@,
                    admission.limit(),
                    pending@,
                ) by {
                    if l < lane {
                        assert(queues@[l] == queues_before[l]);
                        assert(deferred@[l] == deferred_before[l]);
                        lemma_lane_stays_stuck::<B, W>(
                            work_list(deferred@[l], queues@[l]@),
                            admission@,
                            admission.limit(),
                            pending_before,
                            pending@,
                        );
                    }
                }
            }
            assert forall|l: int|
                #![trigger queues@[l]]
                0 <= l < queues@.len() implies {
                &&& lane_work_ok::<B, W>(deferred@[l], queues@[l])
                &&& queues@[l].spec_capacity() == old(queues)@[l].spec_capacity()
            } by {
                if l != lane {
                    assert(queues@[l] == queues_before[l]);
                    assert(deferred@[l] == deferred_before[l]);
                } else {
                    assert(queues_before[l].spec_capacity() == old(queues)@[l].spec_capacity());
                    assert forall|i: int| 0 <= i < left.len() implies (
                    #[trigger] left[i]).work_wf() by {
                        assert(left[i] == work[i + targets.len()]);
                    }
                }
            }
        }
        if moved {
            progressed = true;
        }
        lane = lane + 1;
    }
    proof {
        let lefts = backlogs(deferred@, queues@);
        assert(lanes_moved(
            works,
            lefts,
            stages,
            drops,
            all_items,
            all_targets,
            turns,
            admission@,
            admission.limit(),
            batch_size,
            can_retarget,
        ));
    }
    progressed
}

/// A flush goes on until everything is sent or the socket refuses: what is left is the end
/// of what was offered, and the last send was of exactly that and took nothing, or failed
/// and had taken what is missing of its offer.
pub proof fn law_flushes_go_on_until_refused<S: UdpSocket>(
    start: S,
    end: S,
    offered: Seq<TxSlot<UdpTransmit<UdpTxBuffer<S>>>>,
    left: Seq<TxSlot<UdpTransmit<UdpTxBuffer<S>>>>,
    result: Result<(), SendError>,
)
    requires
        flush_ran(start, end, offered, left, result),
    ensures
        left.len() <= offered.len(),
        left == offered.skip(offered.len() - left.len()),
        offered.len() == 0 ==> result is Ok && end == start,
        result is Ok && left.len() > 0 ==> exists|before: S| #[trigger]
            S::may_send(before, end, left, Ok::<usize, SendError>(0)),
        result matches Err(error) ==> exists|
            before: S,
            last: Seq<TxSlot<UdpTransmit<UdpTxBuffer<S>>>>,
        |
            {
                &&& #[trigger] S::may_send(before, end, last, Err::<usize, SendError>(error))
                &&& 0 < last.len() <= offered.len()
                &&& last == offered.skip(offered.len() - last.len())
                &&& error.accepted <= last.len()
                &&& left == last.skip(error.accepted as int)
            },
{
    let sends = choose|sends: Seq<FlushSend<S>>| #[trigger]
        flush_run(start, end, offered, left, sends, result);
    if sends.len() > 0 {
        let k = sends.len() - 1;
        assert(flush_send_follows(start, offered, sends, k));
        let send = sends[k];
        let last = offered.skip(send.from as int);
        assert(S::may_send(send.before, send.after, last, send.result));
        assert(flush_send_follows(start, offered, sends, 0));
        if result is Ok && left.len() > 0 {
            assert(left =~= last);
            assert(S::may_send(send.before, end, left, Ok::<usize, SendError>(0)));
        }
        if let Err(error) = result {
            assert(left =~= last.skip(error.accepted as int));
            assert(S::may_send(send.before, end, last, Err::<usize, SendError>(error)));
        }
    }
}

/// A flush of all sockets counts what it sends: what has left the lists is what the counter
/// has grown by, and it is progress where that is not zero. From each list the front is
/// taken, in order.
pub proof fn law_flushed_packets_are_counted<S: UdpSocket>(r: Result<bool, TileError>)
    ensures
        forall|sockets: &mut [S], pending: &mut Vec<PendingTx<S>>, tx_packets: &mut u64|
            #![trigger call_ensures(flush_pending_tx::<S>, (sockets, pending, tx_packets), r)]
            call_ensures(flush_pending_tx::<S>, (sockets, pending, tx_packets), r) ==> {
                let sent = list_total(pending@) - list_total(final(pending)@);
                &&& sent >= 0
                &&& *tx_packets + sent <= u64::MAX ==> *final(tx_packets) == *tx_packets + sent
                &&& r matches Ok(progressed) ==> (progressed <==> sent > 0)
                &&& r matches Err(error) ==> error is Send
                &&& final(pending)@.len() == pending@.len()
                &&& final(sockets)@.len() == sockets@.len()
                &&& forall|i: int|
                    0 <= i < pending@.len() ==> {
                        &&& (#[trigger] final(pending)@[i])@.len() <= pending@[i]@.len()
                        &&& final(pending)@[i]@ == pending@[i]@.skip(
                            pending@[i]@.len() - final(pending)@[i]@.len(),
                        )
                    }
            },
{
    assert forall|sockets: &mut [S], pending: &mut Vec<PendingTx<S>>, tx_packets: &mut u64|
        #![trigger call_ensures(flush_pending_tx::<S>, (sockets, pending, tx_packets), r)]
        call_ensures(flush_pending_tx::<S>, (sockets, pending, tx_packets), r) implies {
        let sent = list_total(pending@) - list_total(final(pending)@);
        &&& sent >= 0
        &&& *tx_packets + sent <= u64::MAX ==> *final(tx_packets) == *tx_packets + sent
        &&& r matches Ok(progressed) ==> (progressed <==> sent > 0)
        &&& r matches Err(error) ==> error is Send
        &&& final(pending)@.len() == pending@.len()
        &&& final(sockets)@.len() == sockets@.len()
        &&& forall|i: int|
            0 <= i < pending@.len() ==> {
                &&& (#[trigger] final(pending)@[i])@.len() <= pending@[i]@.len()
                &&& final(pending)@[i]@ == pending@[i]@.skip(
                    pending@[i]@.len() - final(pending)@[i]@.len(),
                )
            }
    } by {
        let sent = choose|sent: Seq<nat>|
            {
                &&& #[trigger] flushed(pending@, final(pending)@, sent)
                &&& *final(tx_packets) == bumped(*tx_packets, count_sum(sent))
                &&& r matches Ok(progressed) ==> progressed == (count_sum(sent) > 0)
            };
        lemma_list_total_flushed(pending@, final(pending)@, sent);
        law_counters_count(*tx_packets, count_sum(sent));
        assert forall|i: int| 0 <= i < pending@.len() implies {
            &&& (#[trigger] final(pending)@[i])@.len() <= pending@[i]@.len()
            &&& final(pending)@[i]@ == pending@[i]@.skip(
                pending@[i]@.len() - final(pending)@[i]@.len(),
            )
        } by {
            assert(sent[i] <= pending@[i]@.len());
        }
    }
}

/// A flush of all sockets serves every socket, in order, and stops only at one that fails:
/// those before it have taken all they would, and those behind it are not touched.
pub proof fn law_flushes_stop_at_the_first_failure<S: UdpSocket>(r: Result<bool, TileError>)
    ensures
        forall|sockets: &mut [S], pending: &mut Vec<PendingTx<S>>, tx_packets: &mut u64|
            #![trigger call_ensures(flush_pending_tx::<S>, (sockets, pending, tx_packets), r)]
            call_ensures(flush_pending_tx::<S>, (sockets, pending, tx_packets), r)
                && sockets@.len() == pending@.len() ==> exists|done: int|
                {
                    &&& 0 <= done <= pending@.len()
                    &&& r is Ok <==> done == pending@.len()
                    &&& forall|i: int|
                        #![trigger final(pending)@[i]]
                        0 <= i < done && final(pending)@[i]@.len() > 0 ==> exists|before: S|
                            #[trigger]
                            S::may_send(
                                before,
                                final(sockets)@[i],
                                final(pending)@[i]@,
                                Ok::<usize, SendError>(0),
                            )
                    &&& r matches Err(TileError::Send(error)) ==> exists|
                        before: S,
                        last: Seq<TxSlot<UdpTransmit<UdpTxBuffer<S>>>>,
                    |
                        {
                            &&& #[trigger] S::may_send(
                                before,
                                final(sockets)@[done],
                                last,
                                Err::<usize, SendError>(error),
                            )
                            &&& error.accepted <= last.len()
                            &&& final(pending)@[done]@ == last.skip(error.accepted as int)
                        }
                    &&& forall|i: int|
                        done < i < pending@.len() ==> {
                            &&& (#[trigger] final(pending)@[i])@ == pending@[i]@
                            &&& final(sockets)@[i] == sockets@[i]
                        }
                    &&& #[trigger] sockets_flushed(
                        sockets@,
                        final(sockets)@,
                        pending@,
                        final(pending)@,
                        flush_outcome(r),
                        done,
                    )
                },
{
    assert forall|sockets: &mut [S], pending: &mut Vec<PendingTx<S>>, tx_packets: &mut u64|
        #![trigger call_ensures(flush_pending_tx::<S>, (sockets, pending, tx_packets), r)]
        call_ensures(flush_pending_tx::<S>, (sockets, pending, tx_packets), r) && sockets@.len()
            == pending@.len() implies exists|done: int|
        {
            &&& 0 <= done <= pending@.len()
            &&& r is Ok <==> done == pending@.len()
            &&& forall|i: int|
                #![trigger final(pending)@[i]]
                0 <= i < done && final(pending)@[i]@.len() > 0 ==> exists|before: S| #[trigger]
                    S::may_send(
                        before,
                        final(sockets)@[i],
                        final(pending)@[i]@,
                        Ok::<usize, SendError>(0),
                    )
            &&& r matches Err(TileError::Send(error)) ==> exists|
                before: S,
                last: Seq<TxSlot<UdpTransmit<UdpTxBuffer<S>>>>,
            |
                {
                    &&& #[trigger] S::may_send(
                        before,
                        final(sockets)@[done],
                        last,
                        Err::<usize, SendError>(error),
                    )
                    &&& error.accepted <= last.len()
                    &&& final(pending)@[done]@ == last.skip(error.accepted as int)
                }
            &&& forall|i: int|
                done < i < pending@.len() ==> {
                    &&& (#[trigger] final(pending)@[i])@ == pending@[i]@
                    &&& final(sockets)@[i] == sockets@[i]
                }
            &&& #[trigger] sockets_flushed(
                sockets@,
                final(sockets)@,
                pending@,
                final(pending)@,
                flush_outcome(r),
                done,
            )
        } by {
        let done = choose|done: int| #[trigger]
            sockets_flushed(
                sockets@,
                final(sockets)@,
                pending@,
                final(pending)@,
                flush_outcome(r),
                done,
            );
        assert forall|i: int|
            #![trigger final(pending)@[i]]
            0 <= i < done && final(pending)@[i]@.len() > 0 implies exists|before: S| #[trigger]
            S::may_send(
                before,
                final(sockets)@[i],
                final(pending)@[i]@,
                Ok::<usize, SendError>(0),
            ) by {
            law_flushes_go_on_until_refused(
                sockets@[i],
                final(sockets)@[i],
                pending@[i]@,
                final(pending)@[i]@,
                Ok::<(), SendError>(()),
            );
        }
        if let Err(TileError::Send(error)) = r {
            law_flushes_go_on_until_refused(
                sockets@[done],
                final(sockets)@[done],
                pending@[done]@,
                final(pending)@[done]@,
                Err::<(), SendError>(error),
            );
        }
        assert forall|i: int| done < i < pending@.len() implies {
            &&& (#[trigger] final(pending)@[i])@ == pending@[i]@
            &&& final(sockets)@[i] == sockets@[i]
        } by {
            assert(final(sockets)@[i] == sockets@[i]);
        }
    }
}

/// Finished sends are reclaimed from every socket, in order, up to the first that fails, and
/// it is progress where any socket had one.
pub proof fn law_completions_are_reclaimed_everywhere<S: UdpSocket>(r: Result<bool, TileError>)
    ensures
        forall|sockets: &mut [S]| #[trigger]
            call_ensures(drain_socket_completions::<S>, (sockets,), r) ==> exists|
                completed: Seq<usize>,
            |
                {
                    &&& forall|i: int|
                        0 <= i < completed.len() ==> S::may_reclaim(
                            sockets@[i],
                            final(sockets)@[i],
                            Ok::<usize, Error>(#[trigger] completed[i]),
                        )
                    &&& r is Ok ==> completed.len() == sockets@.len()
                    &&& r == Ok::<bool, TileError>(true) ==> exists|i: int|
                        0 <= i < completed.len() && #[trigger] completed[i] > 0
                    &&& r == Ok::<bool, TileError>(false) ==> forall|i: int|
                        0 <= i < completed.len() ==> #[trigger] completed[i] == 0
                    &&& r matches Err(error) ==> (error is Socket && #[trigger] completed.len()
                        < sockets@.len() && S::may_reclaim(
                        sockets@[completed.len() as int],
                        final(sockets)@[completed.len() as int],
                        Err::<usize, Error>(error->Socket_0),
                    ))
                    &&& forall|i: int|
                        completed.len() < i < sockets@.len() ==> #[trigger] final(sockets)@[i]
                            == sockets@[i]
                },
{
    assert forall|sockets: &mut [S]| #[trigger]
        call_ensures(drain_socket_completions::<S>, (sockets,), r) implies exists|
        completed: Seq<usize>,
    |
        {
            &&& forall|i: int|
                0 <= i < completed.len() ==> S::may_reclaim(
                    sockets@[i],
                    final(sockets)@[i],
                    Ok::<usize, Error>(#[trigger] completed[i]),
                )
            &&& r is Ok ==> completed.len() == sockets@.len()
            &&& r == Ok::<bool, TileError>(true) ==> exists|i: int|
                0 <= i < completed.len() && #[trigger] completed[i] > 0
            &&& r == Ok::<bool, TileError>(false) ==> forall|i: int|
                0 <= i < completed.len() ==> #[trigger] completed[i] == 0
            &&& r matches Err(error) ==> (error is Socket && #[trigger] completed.len()
                < sockets@.len() && S::may_reclaim(
                sockets@[completed.len() as int],
                final(sockets)@[completed.len() as int],
                Err::<usize, Error>(error->Socket_0),
            ))
            &&& forall|i: int|
                completed.len() < i < sockets@.len() ==> #[trigger] final(sockets)@[i]
                    == sockets@[i]
        } by {
        if let Ok(progressed) = r {
            let completed = choose|completed: Seq<usize>|
                {
                    &&& #[trigger] sockets_reclaimed(sockets@, final(sockets)@, completed)
                    &&& progressed == any_completed(completed)
                };
            assert(completed.len() == sockets@.len());
            if any_completed(completed) {
                let i = choose|i: int| 0 <= i < completed.len() && #[trigger] completed[i] != 0;
                assert(completed[i] > 0);
            }
        } else if let Err(TileError::Socket(error)) = r {
            let completed = choose|completed: Seq<usize>| #[trigger]
                reclaim_stopped(sockets@, final(sockets)@, completed, error);
            assert(completed.len() < sockets@.len());
        }
    }
}

/// A lane is topped up below the watermark only, and then by no more than a refill and no
/// further than its queue has room. What is waiting stays in front.
pub proof fn law_lanes_are_topped_up_below_the_watermark<S: UdpSocket>(
    config: TileConfig,
    r: Result<bool, TileError>,
)
    ensures
        forall|queue: &mut SpscRing<TileTxBuffer<S>>, sockets: &mut [S]| #[trigger]
            call_ensures(refill_lane::<S>, (queue, sockets, config), r) && queue@.len()
                <= queue.spec_capacity() ==> {
                let added = final(queue)@.len() - queue@.len();
                &&& 0 <= added <= config.tx_buffer_refill_batch
                &&& final(queue)@.len() <= queue.spec_capacity()
                &&& final(queue).spec_capacity() == queue.spec_capacity()
                &&& final(queue)@.take(queue@.len() as int) == queue@
                &&& queue@.len() >= config.tx_buffer_refill_watermark ==> r == Ok::<
                    bool,
                    TileError,
                >(false) && final(queue)@ == queue@ && final(sockets)@ == sockets@
                &&& r matches Ok(progressed) ==> (progressed <==> added > 0)
                &&& forall|i: int|
                    queue@.len() <= i < final(queue)@.len() ==> (
                    #[trigger] final(queue)@[i]).source_spec().value() < sockets@.len()
            },
{
    assert forall|queue: &mut SpscRing<TileTxBuffer<S>>, sockets: &mut [S]| #[trigger]
        call_ensures(refill_lane::<S>, (queue, sockets, config), r) && queue@.len()
            <= queue.spec_capacity() implies {
        let added = final(queue)@.len() - queue@.len();
        &&& 0 <= added <= config.tx_buffer_refill_batch
        &&& final(queue)@.len() <= queue.spec_capacity()
        &&& final(queue).spec_capacity() == queue.spec_capacity()
        &&& final(queue)@.take(queue@.len() as int) == queue@
        &&& queue@.len() >= config.tx_buffer_refill_watermark ==> r == Ok::<bool, TileError>(false)
            && final(queue)@ == queue@ && final(sockets)@ == sockets@
        &&& r matches Ok(progressed) ==> (progressed <==> added > 0)
        &&& forall|i: int|
            queue@.len() <= i < final(queue)@.len() ==> (
            #[trigger] final(queue)@[i]).source_spec().value() < sockets@.len()
    } by {
        assert(final(queue)@.take(queue@.len() as int) =~= queue@);
    }
}

/// A lane is refilled in even shares: the target is a refill or the room of the lane, and
/// each socket is asked for a share of it, rounded up, and never for more than is still
/// missing. A buffer names the socket that it came from.
pub open spec fn refilled_evenly<S: UdpSocket>(
    before: SpscRing<TileTxBuffer<S>>,
    after: SpscRing<TileTxBuffer<S>>,
    sockets_before: Seq<S>,
    sockets_after: Seq<S>,
    config: TileConfig,
    given: Seq<Seq<UdpTxBufferMut<S>>>,
    share: int,
    target: int,
) -> bool {
    let room = before.spec_capacity() - before@.len();
    &&& target == config.tx_buffer_refill_batch || target == room
    &&& target <= config.tx_buffer_refill_batch
    &&& target <= room
    &&& share * sockets_before.len() >= target
    &&& (share - 1) * sockets_before.len() < target
    &&& after@.len() == before@.len() + stream_total(given)
    &&& stream_total(given) == target || given.len() == sockets_before.len()
    &&& buffers_asked(sockets_before, sockets_after, target, share, given)
    &&& forall|i: int, k: int|
        0 <= i < given.len() && 0 <= k < given[i].len() ==> {
            let buffer = after@[before@.len() + stream_total(given.take(i)) + k];
            &&& buffer.buffer_spec() == #[trigger] given[i][k]
            &&& buffer.source_spec().value() == i
        }
}

/// A lane below the watermark gets a whole refill, or all its room, unless every socket was
/// asked, each for an even share.
pub proof fn law_refills_are_shared_evenly<S: UdpSocket>(
    config: TileConfig,
    progressed: bool,
)
    ensures
        forall|queue: &mut SpscRing<TileTxBuffer<S>>, sockets: &mut [S]|
            #![trigger call_ensures(
                refill_lane::<S>,
                (queue, sockets, config),
                Ok::<bool, TileError>(progressed),
            )]
            call_ensures(
                refill_lane::<S>,
                (queue, sockets, config),
                Ok::<bool, TileError>(progressed),
            ) && queue@.len() < config.tx_buffer_refill_watermark && queue@.len()
                < queue.spec_capacity() && config.tx_buffer_refill_batch > 0 && sockets@.len() > 0
                ==> exists|given: Seq<Seq<UdpTxBufferMut<S>>>, share: int, target: int| #[trigger]
                refilled_evenly(
                    *queue,
                    *final(queue),
                    sockets@,
                    final(sockets)@,
                    config,
                    given,
                    share,
                    target,
                ),
{
    assert forall|queue: &mut SpscRing<TileTxBuffer<S>>, sockets: &mut [S]|
        #![trigger call_ensures(
            refill_lane::<S>,
            (queue, sockets, config),
            Ok::<bool, TileError>(progressed),
        )]
        call_ensures(
            refill_lane::<S>,
            (queue, sockets, config),
            Ok::<bool, TileError>(progressed),
        ) && queue@.len() < config.tx_buffer_refill_watermark && queue@.len()
            < queue.spec_capacity() && config.tx_buffer_refill_batch > 0 && sockets@.len()
            > 0 implies exists|given: Seq<Seq<UdpTxBufferMut<S>>>, share: int, target: int|
        #[trigger]
        refilled_evenly(
            *queue,
            *final(queue),
            sockets@,
            final(sockets)@,
            config,
            given,
            share,
            target,
        ) by {
        assert(topped_up(*queue, *final(queue), sockets@, final(sockets)@, config));
        lemma_refilled_evenly(*queue, *final(queue), sockets@, final(sockets)@, config);
    }
}

proof fn lemma_buffers_asked<S: UdpSocket>(
    before: Seq<S>,
    after: Seq<S>,
    target: int,
    given: Seq<Seq<UdpTxBufferMut<S>>>,
)
    requires
        buffers_given(before, after, target, given),
    ensures
        buffers_asked(before, after, target, refill_share(target, before.len() as int), given),
{
}

#[verifier::spinoff_prover]
#[verifier::rlimit(30)]
proof fn lemma_refilled_evenly<S: UdpSocket>(
    before: SpscRing<TileTxBuffer<S>>,
    after: SpscRing<TileTxBuffer<S>>,
    sockets_before: Seq<S>,
    sockets_after: Seq<S>,
    config: TileConfig,
)
    requires
        topped_up(before, after, sockets_before, sockets_after, config),
        before@.len() < config.tx_buffer_refill_watermark,
        before@.len() < before.spec_capacity(),
        config.tx_buffer_refill_batch > 0,
        sockets_before.len() > 0,
    ensures
        exists|given: Seq<Seq<UdpTxBufferMut<S>>>, share: int, target: int| #[trigger]
            refilled_evenly(
                before,
                after,
                sockets_before,
                sockets_after,
                config,
                given,
                share,
                target,
            ),
{
    let target = refill_target(config, before@.len(), before.spec_capacity());
    let share = refill_share(target, sockets_before.len() as int);
    law_pieces_cover_the_whole(target, sockets_before.len() as int);
    let given = choose|given: Seq<Seq<UdpTxBufferMut<S>>>|
        {
            &&& #[trigger] buffers_given(sockets_before, sockets_after, target, given)
            &&& holds_given(after@, before@.len(), given)
            &&& given.len() == sockets_before.len() || stream_total(given) == target
            &&& forall|i: int|
                given.len() <= i < sockets_before.len() ==> #[trigger] sockets_after[i]
                    == sockets_before[i]
        };
    lemma_buffers_asked(sockets_before, sockets_after, target, given);
    assert forall|i: int, k: int| 0 <= i < given.len() && 0 <= k < given[i].len() implies {
        let buffer = after@[before@.len() + stream_total(given.take(i)) + k];
        &&& buffer.buffer_spec() == #[trigger] given[i][k]
        &&& buffer.source_spec().value() == i
    } by {}
    assert(refilled_evenly(
        before,
        after,
        sockets_before,
        sockets_after,
        config,
        given,
        share,
        target,
    ));
}

/// Sums over lists go list by list.
pub proof fn law_list_totals_add_up<T, W>(
    counts: Seq<nat>,
    count: nat,
    lists: Seq<Vec<T>>,
    list: Vec<T>,
    deferred: Seq<Option<W>>,
    held: Option<W>,
    queues: Seq<SpscRing<W>>,
    queue: SpscRing<W>,
)
    ensures
        count_sum(counts.push(count)) == count_sum(counts) + count,
        count_sum(Seq::<nat>::empty()) == 0,
        list_total(lists.push(list)) == list_total(lists) + list@.len(),
        list_total(Seq::<Vec<T>>::empty()) == 0,
        work_total(deferred.push(held), queues.push(queue)) == work_total(deferred, queues)
            + queue@.len() + (if held is Some {
            1int
        } else {
            0
        }),
        work_total(Seq::<Option<W>>::empty(), Seq::<SpscRing<W>>::empty()) == 0,
{
    assert(counts.push(count).drop_last() =~= counts);
    assert(lists.push(list).drop_last() =~= lists);
    assert(deferred.push(held).drop_last() =~= deferred);
    assert(queues.push(queue).drop_last() =~= queues);
}

/// Moving the lanes' work to the sockets loses none of it: it waits for a socket, or it is
/// dropped and counted, or it stays in its lane. It is progress where a lane has less.
pub proof fn law_lane_work_is_not_lost<B, W: TxWork<B>>(
    admission: &TxAdmission,
    can_retarget: bool,
    batch_size: usize,
    r: bool,
)
    ensures
        forall|
            queues: &mut Vec<SpscRing<W>>,
            deferred: &mut Vec<Option<W>>,
            pending: &mut Vec<Vec<TxSlot<UdpTransmit<B>>>>,
            turn: &mut usize,
            drops: &mut u64,
        |
            #![trigger call_ensures(
                drain_lane_work::<B, W>,
                (
                    queues,
                    deferred,
                    pending,
                    admission,
                    can_retarget,
                    batch_size,
                    turn,
                    drops,
                ),
                r,
            )]
            call_ensures(
                drain_lane_work::<B, W>,
                (
                    queues,
                    deferred,
                    pending,
                    admission,
                    can_retarget,
                    batch_size,
                    turn,
                    drops,
                ),
                r,
            ) ==> {
                let work = work_total(deferred@, queues@);
                let left = work_total(final(deferred)@, final(queues)@);
                let moved = list_total(final(pending)@) - list_total(pending@);
                let dropped = work - left - moved;
                &&& 0 <= left <= work && moved >= 0 && dropped >= 0
                &&& *drops + dropped <= u64::MAX ==> *final(drops) == *drops + dropped
                &&& r <==> left < work
                &&& !can_retarget ==> *final(turn) == *turn
                &&& forall|b: int|
                    0 <= b < pending@.len() ==> {
                        &&& pending@[b]@.len() <= (#[trigger] final(pending)@[b])@.len()
                        &&& final(pending)@[b]@.take(pending@[b]@.len() as int) == pending@[b]@
                        &&& pending@[b]@.len() <= admission.limit() ==> final(pending)@[b]@.len()
                            <= admission.limit()
                    }
            },
{
    assert forall|
        queues: &mut Vec<SpscRing<W>>,
        deferred: &mut Vec<Option<W>>,
        pending: &mut Vec<Vec<TxSlot<UdpTransmit<B>>>>,
        turn: &mut usize,
        drops: &mut u64,
    |
        #![trigger call_ensures(
            drain_lane_work::<B, W>,
            (
                queues,
                deferred,
                pending,
                admission,
                can_retarget,
                batch_size,
                turn,
                drops,
            ),
            r,
        )]
        call_ensures(
            drain_lane_work::<B, W>,
            (
                queues,
                deferred,
                pending,
                admission,
                can_retarget,
                batch_size,
                turn,
                drops,
            ),
            r,
        ) implies {
        let work = work_total(deferred@, queues@);
        let left = work_total(final(deferred)@, final(queues)@);
        let moved = list_total(final(pending)@) - list_total(pending@);
        let dropped = work - left - moved;
        &&& 0 <= left <= work && moved >= 0 && dropped >= 0
        &&& *drops + dropped <= u64::MAX ==> *final(drops) == *drops + dropped
        &&& r <==> left < work
        &&& !can_retarget ==> *final(turn) == *turn
        &&& forall|b: int|
            0 <= b < pending@.len() ==> {
                &&& pending@[b]@.len() <= (#[trigger] final(pending)@[b])@.len()
                &&& final(pending)@[b]@.take(pending@[b]@.len() as int) == pending@[b]@
                &&& pending@[b]@.len() <= admission.limit() ==> final(pending)@[b]@.len()
                    <= admission.limit()
            }
    } by {
        if !can_retarget {
            lemma_turn_stays::<B, W>(
                backlogs(deferred@, queues@),
                backlogs(final(deferred)@, final(queues)@),
                pending@,
                final(pending)@,
                *drops,
                *final(drops),
                *turn,
                *final(turn),
                admission@,
                admission.limit(),
                batch_size,
            );
        }
        assert forall|b: int| 0 <= b < pending@.len() implies {
            &&& pending@[b]@.len() <= (#[trigger] final(pending)@[b])@.len()
            &&& final(pending)@[b]@.take(pending@[b]@.len() as int) == pending@[b]@
        } by {
            assert(final(pending)@[b]@.take(pending@[b]@.len() as int) =~= pending@[b]@);
        }
    }
}

pub proof fn lemma_turn_stays<B, W: TxWork<B>>(
    works: Seq<Seq<W>>,
    lefts: Seq<Seq<W>>,
    before: Seq<Vec<TxSlot<UdpTransmit<B>>>>,
    after: Seq<Vec<TxSlot<UdpTransmit<B>>>>,
    drops_before: u64,
    drops_after: u64,
    turn_before: usize,
    turn_after: usize,
    open: Seq<bool>,
    capacity: nat,
    batch_size: usize,
)
    requires
        work_moved::<B, W>(
            works,
            lefts,
            before,
            after,
            drops_before,
            drops_after,
            turn_before,
            turn_after,
            open,
            capacity,
            batch_size,
            false,
        ),
    ensures
        turn_after == turn_before,
{
    let (stages, drops, items, targets, turns) = choose|
        stages: Seq<Seq<Vec<TxSlot<UdpTransmit<B>>>>>,
        drops: Seq<u64>,
        items: Seq<Seq<UdpTransmit<B>>>,
        targets: Seq<Seq<int>>,
        turns: Seq<usize>,
    |
        {
            &&& #[trigger] lanes_moved::<B, W>(
                works,
                lefts,
                stages,
                drops,
                items,
                targets,
                turns,
                open,
                capacity,
                batch_size,
                false,
            )
            &&& turns[0] == turn_before
            &&& turns.last() == turn_after
            &&& stages[0] == before
            &&& stages.last() == after
            &&& drops[0] == drops_before
            &&& drops.last() == drops_after
        };
    lemma_turns_equal::<B, W>(
        works,
        lefts,
        stages,
        drops,
        items,
        targets,
        turns,
        open,
        capacity,
        batch_size,
        works.len() as int,
    );
}

proof fn lemma_turns_equal<B, W: TxWork<B>>(
    works: Seq<Seq<W>>,
    lefts: Seq<Seq<W>>,
    stages: Seq<Seq<Vec<TxSlot<UdpTransmit<B>>>>>,
    drops: Seq<u64>,
    items: Seq<Seq<UdpTransmit<B>>>,
    targets: Seq<Seq<int>>,
    turns: Seq<usize>,
    open: Seq<bool>,
    capacity: nat,
    batch_size: usize,
    l: int,
)
    requires
        lanes_moved::<B, W>(
            works,
            lefts,
            stages,
            drops,
            items,
            targets,
            turns,
            open,
            capacity,
            batch_size,
            false,
        ),
        0 <= l <= works.len(),
    ensures
        turns[l] == turns[0],
    decreases l,
{
    if l > 0 {
        lemma_turns_equal::<B, W>(
            works,
            lefts,
            stages,
            drops,
            items,
            targets,
            turns,
            open,
            capacity,
            batch_size,
            l - 1,
        );
        assert(lane_moved::<B, W>(
            works,
            lefts,
            stages,
            drops,
            items,
            targets,
            turns,
            open,
            capacity,
            batch_size,
            false,
            l - 1,
        ));
    }
}

/// Each socket was asked for a share of the target, as far as it was still missing.
pub open spec fn buffers_asked<S: UdpSocket>(
    before: Seq<S>,
    after: Seq<S>,
    target: int,
    share: int,
    given: Seq<Seq<UdpTxBufferMut<S>>>,
) -> bool {
    forall|i: int|
        0 <= i < given.len() ==> {
            let missing = target - stream_total(given.take(i));
            S::may_allocate(
                before[i],
                after[i],
                (if share <= missing {
                    share
                } else {
                    missing
                }) as usize,
                #[trigger] given[i],
                Ok::<usize, Error>(given[i].len() as usize),
            )
        }
}

/// A lane's work leaves in order, each packet to an open socket that exists: to its own one
/// where it may not be sent through another. Only a packet whose socket does not exist is
/// dropped.
pub proof fn law_lane_work_goes_to_sockets<B, W: TxWork<B>>(
    works: Seq<Seq<W>>,
    lefts: Seq<Seq<W>>,
    stages: Seq<Seq<Vec<TxSlot<UdpTransmit<B>>>>>,
    drops: Seq<u64>,
    items: Seq<Seq<UdpTransmit<B>>>,
    targets: Seq<Seq<int>>,
    turns: Seq<usize>,
    open: Seq<bool>,
    capacity: nat,
    batch_size: usize,
    can_retarget: bool,
    l: int,
    i: int,
)
    requires
        lane_moved::<B, W>(
            works,
            lefts,
            stages,
            drops,
            items,
            targets,
            turns,
            open,
            capacity,
            batch_size,
            can_retarget,
            l,
        ),
        0 <= i < targets[l].len(),
    ensures
        lefts[l] == works[l].skip(targets[l].len() as int),
        works[l][i].source() >= stages[l].len() ==> targets[l][i] == -1,
        works[l][i].source() < stages[l].len() ==> {
            &&& 0 <= targets[l][i] < stages[l].len()
            &&& open[targets[l][i]]
            &&& !can_retarget ==> targets[l][i] == works[l][i].source()
            &&& works[l][i].transmits_as(items[l][i])
        },
        forall|b: int|
            0 <= b < stages[l].len() ==> (#[trigger] stages[l + 1][b])@ == stages[l][b]@ + assigned(
                items[l],
                targets[l],
                b,
            ),
{
    assert(targets[l][i] == -1 || open[targets[l][i]]);
}

} // verus!
