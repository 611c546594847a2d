//! Batch queues between a tile and its lanes.

use vstd::prelude::*;

use crate::queue::Queue;
use crate::ring::{popped, pushed};
use crate::tile::{TileRxBatch, TileTxBatch};
use crate::udp::UdpSocket;

verus! {

/// A tile-to-lane ingress queue.
pub trait TileRxQueue<S: UdpSocket> {
    /// The queue is consistent.
    closed spec fn rx_wf(&self) -> bool {
        true
    }

    /// The queued batches, oldest first.
    closed spec fn rx_batches(&self) -> Seq<TileRxBatch<S>> {
        arbitrary()
    }

    /// Pops one received packet batch.
    fn pop_batch(&mut self) -> (r: Option<TileRxBatch<S>>)
        requires
            old(self).rx_wf(),
        ensures
            final(self).rx_wf(),
            r == popped(old(self).rx_batches()).0,
            final(self).rx_batches() == popped(old(self).rx_batches()).1,
    ;
}

impl<S: UdpSocket> TileRxQueue<S> for Queue<TileRxBatch<S>> {
    open spec fn rx_wf(&self) -> bool {
        self.wf()
    }

    open spec fn rx_batches(&self) -> Seq<TileRxBatch<S>> {
        self@
    }

    fn pop_batch(&mut self) -> Option<TileRxBatch<S>> {
        self.pop()
    }
}

/// A lane-to-tile egress queue.
pub trait TileTxQueue<S: UdpSocket> {
    /// The queue is consistent.
    closed spec fn tx_wf(&self) -> bool {
        true
    }

    /// The queued batches, oldest first.
    closed spec fn tx_batches(&self) -> Seq<TileTxBatch<S>> {
        arbitrary()
    }

    /// The number of batches that the queue holds at most.
    closed spec fn tx_limit(&self) -> nat {
        arbitrary()
    }

    /// Pushes one batch for transmit, returning it when the queue is full.
    fn push_batch(&mut self, batch: TileTxBatch<S>) -> (r: Result<(), TileTxBatch<S>>)
        requires
            old(self).tx_wf(),
        ensures
            final(self).tx_wf(),
            final(self).tx_limit() == old(self).tx_limit(),
            r == pushed(old(self).tx_batches(), old(self).tx_limit(), batch).0,
            final(self).tx_batches() == pushed(
                old(self).tx_batches(),
                old(self).tx_limit(),
                batch,
            ).1,
    ;
}

impl<S: UdpSocket> TileTxQueue<S> for Queue<TileTxBatch<S>> {
    open spec fn tx_wf(&self) -> bool {
        self.wf()
    }

    open spec fn tx_batches(&self) -> Seq<TileTxBatch<S>> {
        self@
    }

    open spec fn tx_limit(&self) -> nat {
        self.spec_capacity()
    }

    fn push_batch(&mut self, batch: TileTxBatch<S>) -> Result<(), TileTxBatch<S>> {
        self.push(batch)
    }
}

/// Batches pass through a queue in order: what is pushed goes behind the rest, as long as
/// there is room, and what has waited longest is popped.
pub proof fn law_batches_pass_in_order<
    S: UdpSocket,
    R: TileRxQueue<S>,
    T: TileTxQueue<S>,
>(batch: TileTxBatch<S>)
    ensures
        forall|queue: &mut R, r: Option<TileRxBatch<S>>| #[trigger]
            call_ensures(R::pop_batch, (queue,), r) ==> {
                &&& r is None <==> queue.rx_batches().len() == 0
                &&& r matches Some(first) ==> queue.rx_batches() == seq![first]
                    + final(queue).rx_batches()
                &&& r is None ==> final(queue).rx_batches() == queue.rx_batches()
            },
        forall|queue: &mut T, r: Result<(), TileTxBatch<S>>| #[trigger]
            call_ensures(T::push_batch, (queue, batch), r) ==> {
                &&& r is Ok <==> queue.tx_batches().len() < queue.tx_limit()
                &&& r is Ok ==> final(queue).tx_batches() == queue.tx_batches() + seq![batch]
                &&& r matches Err(back) ==> back == batch
                &&& r is Err ==> final(queue).tx_batches() == queue.tx_batches()
            },
{
    assert forall|queue: &mut R, r: Option<TileRxBatch<S>>| #[trigger]
        call_ensures(R::pop_batch, (queue,), r) implies {
        &&& r is None <==> queue.rx_batches().len() == 0
        &&& r matches Some(first) ==> queue.rx_batches() == seq![first] + final(queue).rx_batches()
        &&& r is None ==> final(queue).rx_batches() == queue.rx_batches()
    } by {
        let waiting = queue.rx_batches();
        if waiting.len() > 0 {
            assert(waiting =~= seq![waiting[0]] + waiting.skip(1));
        }
    }
    assert forall|queue: &mut T, r: Result<(), TileTxBatch<S>>| #[trigger]
        call_ensures(T::push_batch, (queue, batch), r) implies {
        &&& r is Ok <==> queue.tx_batches().len() < queue.tx_limit()
        &&& r is Ok ==> final(queue).tx_batches() == queue.tx_batches() + seq![batch]
        &&& r matches Err(back) ==> back == batch
        &&& r is Err ==> final(queue).tx_batches() == queue.tx_batches()
    } by {
        assert(queue.tx_batches().push(batch) =~= queue.tx_batches() + seq![batch]);
    }
}

} // verus!
