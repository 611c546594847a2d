//! Batch containers and ownership-transfer helpers.

use vstd::prelude::*;
use vstd::string::*;

use crate::error::Error;
use crate::text::{decimal_text, push_decimal};

verus! {

/// A transmit slot that can be consumed in place by a socket.
#[derive(Clone, Debug, Eq, PartialEq)]
pub enum TxSlot<T> {
    /// The slot contains a packet ready to transmit.
    Ready(T),
    /// The slot was accepted by a socket and its packet ownership was taken.
    Taken,
}

impl<T> TxSlot<T> {
    /// Returns `true` when the slot contains a ready item.
    #[must_use]
    pub fn is_ready(&self) -> (r: bool)
        ensures
            r == (*self is Ready),
    {
        matches!(self, TxSlot::Ready(_))
    }

    /// Returns `true` when the slot has already been consumed.
    #[must_use]
    pub fn is_taken(&self) -> (r: bool)
        ensures
            r == (*self is Taken),
    {
        matches!(self, TxSlot::Taken)
    }

    /// Borrows the ready item, if present.
    #[must_use]
    pub fn as_ref(&self) -> (r: Option<&T>)
        ensures
            match *self {
                TxSlot::Ready(item) => r == Some(&item),
                TxSlot::Taken => r is None,
            },
    {
        match self {
            TxSlot::Ready(item) => Some(item),
            TxSlot::Taken => None,
        }
    }

    /// Mutably borrows the ready item, if present.
    #[must_use]
    pub fn as_mut(&mut self) -> (r: Option<&mut T>)
        ensures
            match *old(self) {
                TxSlot::Ready(item) => {
                    &&& r is Some
                    &&& *r->0 == item
                    &&& *final(self) == TxSlot::Ready(*final(r->0))
                },
                TxSlot::Taken => r is None && *final(self) == *old(self),
            },
    {
        match self {
            TxSlot::Ready(item) => Some(item),
            TxSlot::Taken => None,
        }
    }

    /// Takes ownership of the ready item and leaves the slot marked as taken.
    pub fn take(&mut self) -> (r: Option<T>)
        ensures
            *final(self) is Taken,
            match *old(self) {
                TxSlot::Ready(item) => r == Some(item),
                TxSlot::Taken => r is None,
            },
    {
        let mut slot: TxSlot<T> = TxSlot::Taken;
        core::mem::swap(self, &mut slot);
        match slot {
            TxSlot::Ready(item) => Some(item),
            TxSlot::Taken => None,
        }
    }
}

impl<T> From<T> for TxSlot<T> {
    fn from(value: T) -> (r: Self) {
        TxSlot::Ready(value)
    }
}

impl<T> vstd::std_specs::convert::FromSpecImpl<T> for TxSlot<T> {
    open spec fn obeys_from_spec() -> bool {
        true
    }

    open spec fn from_spec(value: T) -> Self {
        TxSlot::Ready(value)
    }
}

/// Error returned by a batch send after accepting a prefix of the batch.
#[derive(Clone, Debug)]
pub struct SendError {
    /// Number of leading slots accepted and consumed before the error.
    ///
    /// Slots below `accepted` are [`TxSlot::Taken`]; the others keep the state
    /// in which the caller submitted them.
    pub accepted: usize,
    /// Error that caused the next slot to be rejected.
    pub kind: Error,
}

impl SendError {
    /// The text that describes this error.
    pub open spec fn message_text(self) -> Seq<char> {
        "send failed after accepting "@ + decimal_text(self.accepted as nat) + " items: "@
            + self.kind.message_text()
    }

    /// Renders this error for people.
    pub fn message(&self) -> (r: String)
        ensures
            r@ == self.message_text(),
    {
        let mut out = "send failed after accepting ".to_owned();
        push_decimal(&mut out, self.accepted as u64);
        out.append(" items: ");
        out.append(self.kind.message().as_str());
        out
    }
}

/// Number of slots that a batch send reports as accepted.
pub open spec fn accepted_count(result: Result<usize, SendError>) -> int {
    match result {
        Ok(accepted) => accepted as int,
        Err(error) => error.accepted as int,
    }
}

/// `after` is `before` with exactly the first `accepted` slots consumed.
pub open spec fn prefix_taken<T>(
    before: Seq<TxSlot<T>>,
    after: Seq<TxSlot<T>>,
    accepted: int,
) -> bool {
    &&& 0 <= accepted <= before.len()
    &&& after.len() == before.len()
    &&& forall|i: int| 0 <= i < accepted ==> (#[trigger] after[i]) is Taken
    &&& forall|i: int| accepted <= i < after.len() ==> (#[trigger] after[i]) == before[i]
}

/// A send on the tail left by an earlier send consumes one longer prefix.
pub proof fn law_prefix_taken_composes<T>(
    before: Seq<TxSlot<T>>,
    middle: Seq<TxSlot<T>>,
    tail: Seq<TxSlot<T>>,
    first: int,
    second: int,
)
    requires
        prefix_taken(before, middle, first),
        prefix_taken(middle.skip(first), tail, second),
    ensures
        prefix_taken(before, middle.take(first) + tail, first + second),
{
    let after = middle.take(first) + tail;
    assert forall|i: int| 0 <= i < first + second implies (#[trigger] after[i]) is Taken by {
        if i < first {
            assert(after[i] == middle[i]);
        } else {
            assert(after[i] == tail[i - first]);
        }
    }
    assert forall|i: int| first + second <= i < after.len() implies (#[trigger] after[i])
        == before[i] by {
        assert(after[i] == tail[i - first]);
        assert(tail[i - first] == middle.skip(first)[i - first]);
        assert(middle[i] == before[i]);
    }
}

/// What a send-to-completion loop does next.
#[derive(Clone, Debug)]
pub enum SendAllStep {
    /// So many slots of the batch are accepted by now; send the rest.
    Advance(usize),
    /// Nothing was accepted: reclaim transmit completions, then send again.
    Reclaim,
    /// Give up with this error.
    Fail(SendError),
}

impl SendAllStep {
    /// Decides after a send on the slots behind the first `total`.
    pub fn after_send(total: usize, outcome: Result<usize, SendError>) -> (r: Self)
        requires
            total + accepted_count(outcome) <= usize::MAX,
        ensures
            r == (match outcome {
                Ok(accepted) => if accepted == 0 {
                    SendAllStep::Reclaim
                } else {
                    SendAllStep::Advance((total + accepted) as usize)
                },
                Err(error) => SendAllStep::Fail(
                    SendError { accepted: (total + error.accepted) as usize, kind: error.kind },
                ),
            }),
    {
        match outcome {
            Ok(accepted) => if accepted == 0 {
                SendAllStep::Reclaim
            } else {
                SendAllStep::Advance(total + accepted)
            },
            Err(error) => SendAllStep::Fail(
                SendError { accepted: total + error.accepted, kind: error.kind },
            ),
        }
    }

    /// Decides after reclaiming completions with `total` slots accepted.
    pub fn after_reclaim(total: usize, outcome: Result<usize, Error>) -> (r: Self)
        ensures
            r == (match outcome {
                Ok(_) => SendAllStep::Advance(total),
                Err(kind) => SendAllStep::Fail(SendError { accepted: total, kind }),
            }),
    {
        match outcome {
            Ok(_) => SendAllStep::Advance(total),
            Err(kind) => SendAllStep::Fail(SendError { accepted: total, kind }),
        }
    }
}

/// Reusable receive batch with caller-controlled capacity.
#[derive(Clone, Debug)]
pub struct RecvBatch<T> {
    items: Vec<T>,
    capacity: usize,
}

impl<T> RecvBatch<T> {
    /// The received items in arrival order.
    pub closed spec fn view(&self) -> Seq<T> {
        self.items@
    }

    /// The maximum number of items.
    pub closed spec fn spec_capacity(&self) -> usize {
        self.capacity
    }

    /// The batch has room for at least one item and never holds more than its capacity.
    pub open spec fn wf(&self) -> bool {
        0 < self.spec_capacity() && self@.len() <= self.spec_capacity()
    }

    /// Creates an empty receive batch with room for at most `capacity` items.
    ///
    /// A zero-capacity batch could never accept a packet, so `capacity` is at
    /// least 1.
    #[must_use]
    pub fn with_capacity(capacity: usize) -> (r: Self)
        requires
            capacity > 0,
        ensures
            r.wf(),
            r@ == Seq::<T>::empty(),
            r.spec_capacity() == capacity,
    {
        RecvBatch { items: Vec::with_capacity(capacity), capacity }
    }

    /// Returns the maximum number of items this batch accepts.
    #[must_use]
    pub fn capacity(&self) -> (r: usize)
        ensures
            r == self.spec_capacity(),
    {
        self.capacity
    }

    /// Returns the number of received items currently stored in the batch.
    #[must_use]
    pub fn len(&self) -> (r: usize)
        ensures
            r == self@.len(),
    {
        self.items.len()
    }

    /// Returns `true` when the batch contains no items.
    #[must_use]
    pub fn is_empty(&self) -> (r: bool)
        ensures
            r == (self@.len() == 0),
    {
        self.items.len() == 0
    }

    /// Returns the number of items that can still be pushed before the batch is full.
    #[must_use]
    pub fn remaining(&self) -> (r: usize)
        requires
            self.wf(),
        ensures
            r == self.spec_capacity() - self@.len(),
    {
        self.capacity.saturating_sub(self.items.len())
    }

    /// Clears the current items while preserving the allocated storage.
    pub fn clear(&mut self)
        ensures
            final(self)@ == Seq::<T>::empty(),
            final(self).spec_capacity() == old(self).spec_capacity(),
    {
        self.items.clear();
    }

    /// Pushes one received item if capacity remains.
    ///
    /// Returns the item back to the caller when the batch is full.
    pub fn push(&mut self, item: T) -> (r: Result<(), T>)
        requires
            old(self).wf(),
        ensures
            final(self).wf(),
            final(self).spec_capacity() == old(self).spec_capacity(),
            old(self)@.len() < old(self).spec_capacity() ==> r is Ok && final(self)@ == old(self)@.push(item),
            old(self)@.len() >= old(self).spec_capacity() ==> r == Err::<(), T>(item) && final(self)@ == old(self)@,
    {
        if self.items.len() >= self.capacity {
            Err(item)
        } else {
            self.items.push(item);
            Ok(())
        }
    }

    /// Returns the received items as a slice.
    #[must_use]
    pub fn as_slice(&self) -> (r: &[T])
        ensures
            r@ == self@,
    {
        self.items.as_slice()
    }

    /// Returns the received items as a mutable slice.
    #[must_use]
    pub fn as_mut_slice(&mut self) -> (r: &mut [T])
        ensures
            r@ == old(self)@,
            final(self)@ == final(r)@,
            final(self).spec_capacity() == old(self).spec_capacity(),
    {
        self.items.as_mut_slice()
    }

    /// Drains all received items from the batch, oldest first.
    pub fn drain(&mut self) -> (r: Vec<T>)
        ensures
            r@ == old(self)@,
            final(self)@ == Seq::<T>::empty(),
            final(self).spec_capacity() == old(self).spec_capacity(),
    {
        let mut items: Vec<T> = Vec::new();
        core::mem::swap(&mut self.items, &mut items);
        items
    }
}

/// One round of a run of sends.
pub struct SendRound<S> {
    /// The slots that earlier rounds accepted.
    pub from: usize,
    /// The socket before the send.
    pub before: S,
    /// What the send returned.
    pub result: Result<usize, SendError>,
    /// The socket after the send.
    pub sent: S,
    /// What reclaiming completions returned, after a send that accepted nothing.
    pub reclaimed: Option<Result<usize, Error>>,
    /// The socket after the round.
    pub after: S,
}

impl<S> SendRound<S> {
    /// The slots that this round and the earlier ones accepted.
    pub open spec fn until(self) -> int {
        self.from + accepted_count(self.result)
    }

    /// The run may go on after this round: nothing failed.
    pub open spec fn succeeded(self) -> bool {
        self.result is Ok && !(self.reclaimed matches Some(Err(_)))
    }
}

/// A notification of a socket's transmit path.
pub struct Notification<S> {
    /// The socket before the notification.
    pub before: S,
    /// The socket after the notification.
    pub after: S,
    /// What the notification returned.
    pub result: Result<(), Error>,
}

/// Round `i` follows the round before it, or the socket `start`. Completions are
/// reclaimed exactly after a send that accepted nothing.
pub open spec fn round_follows<S>(start: S, rounds: Seq<SendRound<S>>, i: int) -> bool {
    let round = rounds[i];
    &&& if i == 0 {
        round.before == start && round.from == 0
    } else {
        &&& round.before == rounds[i - 1].after
        &&& round.from == rounds[i - 1].until()
        &&& rounds[i - 1].succeeded()
    }
    &&& round.reclaimed is Some <==> round.result == Ok::<usize, SendError>(0)
    &&& round.reclaimed is None ==> round.after == round.sent
}

/// `rounds` follow each other from the socket `start` on, and only the last one
/// may have failed.
pub open spec fn rounds_follow<S>(start: S, rounds: Seq<SendRound<S>>) -> bool {
    forall|i: int| 0 <= i < rounds.len() ==> #[trigger] round_follows(start, rounds, i)
}

/// The socket and the accepted slots after all rounds.
pub open spec fn rounds_end<S>(start: S, rounds: Seq<SendRound<S>>) -> (S, int) {
    if rounds.len() == 0 {
        (start, 0)
    } else {
        (rounds.last().after, rounds.last().until())
    }
}

/// A run of at most `max_rounds` sends on `length` slots took the socket from
/// `start` to `end` and returned `result`: everything was accepted, or the last round
/// failed, or the rounds were used up before everything was accepted.
pub open spec fn send_run<S>(
    start: S,
    end: S,
    length: nat,
    max_rounds: usize,
    rounds: Seq<SendRound<S>>,
    result: Result<usize, SendError>,
) -> bool {
    &&& rounds.len() <= max_rounds
    &&& rounds_follow(start, rounds)
    &&& rounds_end(start, rounds) == (end, accepted_count(result))
    &&& match result {
        Ok(total) => {
            &&& total == length
            &&& rounds.len() > 0 ==> rounds.last().succeeded()
        },
        Err(error) => if rounds.len() > 0 && !rounds.last().succeeded() {
            match rounds.last().result {
                Ok(_) => rounds.last().reclaimed == Some(Err::<usize, Error>(error.kind)),
                Err(failed) => failed.kind == error.kind,
            }
        } else {
            &&& rounds.len() == max_rounds
            &&& error.accepted < length
            &&& error.kind == Error::WouldBlock
        },
    }
}

/// Rounds that follow each other, with one more round that follows the last one.
pub proof fn lemma_one_more_round<S>(start: S, rounds: Seq<SendRound<S>>, round: SendRound<S>)
    requires
        rounds_follow(start, rounds),
        rounds.len() > 0 ==> rounds.last().succeeded(),
        rounds_end(start, rounds) == (round.before, round.from as int),
        round.reclaimed is Some <==> round.result == Ok::<usize, SendError>(0),
        round.reclaimed is None ==> round.after == round.sent,
    ensures
        rounds_follow(start, rounds.push(round)),
        rounds_end(start, rounds.push(round)) == (round.after, round.until()),
{
    let longer = rounds.push(round);
    assert forall|i: int| 0 <= i < longer.len() implies #[trigger] round_follows(
        start,
        longer,
        i,
    ) by {
        if i < rounds.len() {
            assert(round_follows(start, rounds, i));
        }
    }
}

/// A slot is ready or taken, never both. Taking gives the item once and leaves the slot
/// taken.
pub proof fn law_slots_are_taken_once<T>(slot: &TxSlot<T>, ready: bool, taken: bool)
    requires
        call_ensures(TxSlot::<T>::is_ready, (slot,), ready),
        call_ensures(TxSlot::<T>::is_taken, (slot,), taken),
    ensures
        ready <==> !taken,
        ready <==> *slot is Ready,
        forall|used: &mut TxSlot<T>, r: Option<T>| #[trigger]
            call_ensures(TxSlot::<T>::take, (used,), r) ==> {
                &&& *final(used) is Taken
                &&& r is Some <==> *used is Ready
                &&& r matches Some(item) ==> *used == TxSlot::Ready(item)
            },
{
}

/// After a send the count goes on from what was taken before, a send that takes nothing
/// asks for finished sends to be reclaimed, and an error counts everything that was taken
/// until then.
pub proof fn law_send_steps_count_on(
    total: usize,
    outcome: Result<usize, SendError>,
    reclaimed: Result<usize, Error>,
    r: SendAllStep,
)
    ensures
        call_ensures(SendAllStep::after_send, (total, outcome), r) && total + accepted_count(outcome)
            <= usize::MAX ==> match outcome {
            Ok(accepted) => {
                &&& accepted == 0 <==> r is Reclaim
                &&& accepted > 0 ==> (r matches SendAllStep::Advance(reached) && reached == total
                    + accepted)
            },
            Err(error) => r matches SendAllStep::Fail(failed) && failed.accepted == total
                + error.accepted && failed.kind == error.kind,
        },
        call_ensures(SendAllStep::after_reclaim, (total, reclaimed), r) ==> match reclaimed {
            Ok(_) => r == SendAllStep::Advance(total),
            Err(kind) => r matches SendAllStep::Fail(failed) && failed.accepted == total
                && failed.kind == kind,
        },
{
}

/// The rounds of a send follow each other: each begins with the socket and the slot where
/// the one before ended, only a round that took nothing reclaims, and a send ends when all
/// is taken, when something fails, or when there were as many rounds as allowed.
pub proof fn law_rounds_follow_each_other<S>(
    start: S,
    end: S,
    length: nat,
    max_rounds: usize,
    rounds: Seq<SendRound<S>>,
    result: Result<usize, SendError>,
    i: int,
)
    requires
        send_run(start, end, length, max_rounds, rounds, result),
        0 <= i < rounds.len(),
    ensures
        rounds.len() <= max_rounds,
        rounds[0].from == 0 && rounds[0].before == start,
        i + 1 < rounds.len() ==> {
            &&& rounds[i + 1].before == rounds[i].after
            &&& rounds[i].result matches Ok(accepted) && rounds[i + 1].from == rounds[i].from
                + accepted
        },
        rounds[i].reclaimed is Some <==> rounds[i].result == Ok::<usize, SendError>(0),
        result matches Ok(total) ==> total == length,
        result matches Err(error) ==> {
            let last = rounds.last();
            ||| last.result matches Err(failed) && failed.kind == error.kind && error.accepted
                == last.from + failed.accepted
            ||| last.reclaimed == Some(Err::<usize, Error>(error.kind)) && error.accepted
                == last.from
            ||| rounds.len() == max_rounds && error.kind is WouldBlock && error.accepted < length
        },
{
    assert(round_follows(start, rounds, i));
    assert(round_follows(start, rounds, 0));
    assert(round_follows(start, rounds, rounds.len() - 1));
    if i + 1 < rounds.len() {
        assert(round_follows(start, rounds, i + 1));
    }
}

/// A receive batch takes items in order up to its capacity, hands a further one back, and
/// gives everything out in that order.
pub proof fn law_receive_batches_hold_their_capacity<T>(capacity: usize, item: T)
    ensures
        forall|batch: RecvBatch<T>| #[trigger]
            call_ensures(RecvBatch::<T>::with_capacity, (capacity,), batch) ==> batch@.len() == 0
                && batch.spec_capacity() == capacity,
        forall|batch: &mut RecvBatch<T>, r: Result<(), T>| #[trigger]
            call_ensures(RecvBatch::<T>::push, (batch, item), r) ==> {
                &&& r is Ok <==> batch@.len() < batch.spec_capacity()
                &&& r is Ok ==> final(batch)@ == batch@ + seq![item]
                &&& r matches Err(back) ==> back == item && final(batch)@ == batch@
                &&& final(batch).spec_capacity() == batch.spec_capacity()
            },
        forall|batch: &RecvBatch<T>, r: usize| #[trigger]
            call_ensures(RecvBatch::<T>::remaining, (batch,), r) ==> r + batch@.len()
                == batch.spec_capacity(),
        forall|batch: &mut RecvBatch<T>, r: Vec<T>| #[trigger]
            call_ensures(RecvBatch::<T>::drain, (batch,), r) ==> {
                &&& r@ == batch@
                &&& final(batch)@.len() == 0
                &&& final(batch).spec_capacity() == batch.spec_capacity()
            },
        forall|batch: &mut RecvBatch<T>| #[trigger]
            call_ensures(RecvBatch::<T>::clear, (batch,), ()) ==> final(batch)@.len() == 0
                && final(batch).spec_capacity() == batch.spec_capacity(),
{
    assert forall|batch: &mut RecvBatch<T>, r: Result<(), T>| #[trigger]
        call_ensures(RecvBatch::<T>::push, (batch, item), r) implies {
        &&& r is Ok <==> batch@.len() < batch.spec_capacity()
        &&& r is Ok ==> final(batch)@ == batch@ + seq![item]
        &&& r matches Err(back) ==> back == item && final(batch)@ == batch@
        &&& final(batch).spec_capacity() == batch.spec_capacity()
    } by {
        assert(batch@.push(item) =~= batch@ + seq![item]);
    }
}

/// The message of a failed send names what was accepted and why it failed.
pub proof fn law_send_errors_say_what_was_accepted(error: &SendError, r: String, kind: String)
    requires
        call_ensures(SendError::message, (error,), r),
        call_ensures(Error::message, (&error.kind,), kind),
    ensures
        r@ == "send failed after accepting "@ + decimal_text(error.accepted as nat) + " items: "@
            + kind@,
{
}

} // verus!
