//! Queues whose consumer may sleep, with compile-time wait strategies.

use vstd::prelude::*;

use crate::poll_mode::Sealed;
use crate::queue::Queue;
use crate::ring::{popped, pushed};

verus! {

/// Longest idle wait of a parked consumer, in microseconds.
pub const PARK_TIMEOUT_MICROS: u64 = 50;

/// One bounded idle wait.
#[derive(Clone, Copy, Debug, Eq, PartialEq, Structural)]
pub enum IdleAction {
    /// Spin for a moment.
    SpinLoop,
    /// Park the thread for at most this many microseconds.
    Park(u64),
}

/// Compile-time wait strategy for tile queues.
///
/// [`Spin`] is pure polling. [`Park`] records the consumer thread and lets
/// producers unpark it after a successful push.
pub trait WaitStrategy: Sealed + Sized {
    /// Per-queue state used by this strategy.
    type State;

    /// A push wakes the consumer in this state.
    spec fn wakes(state: Self::State) -> bool;

    /// The state of a registered consumer that is about to sleep.
    spec fn asleep(state: Self::State) -> bool;

    /// The consumer has registered.
    spec fn registered(state: Self::State) -> bool;

    /// Creates the state of a new queue.
    fn new_state() -> (r: Self::State)
        ensures
            !Self::wakes(r),
    ;

    /// Returns whether the consumer has to be unparked after a successful push.
    fn on_push(state: &Self::State) -> (r: bool)
        ensures
            r == Self::wakes(*state),
    ;

    /// Called by the consumer thread before entering its worker loop.
    fn register_consumer(state: &mut Self::State)
        ensures
            Self::registered(*final(state)),
            Self::asleep(*old(state)) ==> Self::asleep(*final(state)),
    ;

    /// Marks the consumer as about to sleep.
    fn set_sleeping(state: &mut Self::State)
        ensures
            Self::asleep(*final(state)),
            Self::registered(*final(state)) == Self::registered(*old(state)),
    ;

    /// Clears the sleeping flag after waking or after the empty re-check.
    fn clear_sleeping(state: &mut Self::State)
        ensures
            !Self::wakes(*final(state)),
            Self::registered(*final(state)) == Self::registered(*old(state)),
    ;

    /// Returns the bounded idle wait of this strategy.
    fn do_wait() -> (r: IdleAction);

    /// A registered consumer that is about to sleep is woken by a push, or does
    /// not sleep at all.
    proof fn lemma_no_lost_wakeup(state: Self::State)
        requires
            Self::asleep(state),
            Self::registered(state),
        ensures
            Self::wakes(state) || forall|action: IdleAction|
                call_ensures(Self::do_wait, (), action) ==> action == IdleAction::SpinLoop,
    ;
}

/// Busy-spin wait strategy.
#[derive(Clone, Copy, Debug, Default, Eq, PartialEq, Structural)]
pub struct Spin;

impl Sealed for Spin {

}

impl WaitStrategy for Spin {
    type State = ();

    open spec fn wakes(state: ()) -> bool {
        false
    }

    open spec fn asleep(state: ()) -> bool {
        true
    }

    open spec fn registered(state: ()) -> bool {
        true
    }

    fn new_state() {
    }

    fn on_push(state: &()) -> bool {
        false
    }

    fn register_consumer(state: &mut ()) {
    }

    fn set_sleeping(state: &mut ()) {
    }

    fn clear_sleeping(state: &mut ()) {
    }

    fn do_wait() -> (r: IdleAction)
        ensures
            r == IdleAction::SpinLoop,
    {
        IdleAction::SpinLoop
    }

    proof fn lemma_no_lost_wakeup(state: ()) {
    }
}

/// Park/unpark wait strategy.
#[derive(Clone, Copy, Debug, Default, Eq, PartialEq, Structural)]
pub struct Park;

impl Sealed for Park {

}

/// Per-queue state used by [`Park`].
#[derive(Clone, Copy, Debug, Default, Eq, PartialEq, Structural)]
pub struct ParkState {
    sleeping: bool,
    consumer: bool,
}

impl ParkState {
    /// The consumer is about to sleep.
    pub closed spec fn is_sleeping(self) -> bool {
        self.sleeping
    }

    /// The consumer has registered.
    pub closed spec fn has_consumer(self) -> bool {
        self.consumer
    }
}

impl WaitStrategy for Park {
    type State = ParkState;

    open spec fn wakes(state: ParkState) -> bool {
        state.is_sleeping() && state.has_consumer()
    }

    open spec fn asleep(state: ParkState) -> bool {
        state.is_sleeping()
    }

    open spec fn registered(state: ParkState) -> bool {
        state.has_consumer()
    }

    fn new_state() -> (r: ParkState)
        ensures
            !r.is_sleeping(),
            !r.has_consumer(),
    {
        ParkState { sleeping: false, consumer: false }
    }

    fn on_push(state: &ParkState) -> bool {
        state.sleeping && state.consumer
    }

    fn register_consumer(state: &mut ParkState) {
        state.consumer = true;
    }

    fn set_sleeping(state: &mut ParkState) {
        state.sleeping = true;
    }

    fn clear_sleeping(state: &mut ParkState)
        ensures
            !final(state).is_sleeping(),
    {
        state.sleeping = false;
    }

    fn do_wait() -> (r: IdleAction)
        ensures
            r == IdleAction::Park(PARK_TIMEOUT_MICROS),
    {
        IdleAction::Park(PARK_TIMEOUT_MICROS)
    }

    proof fn lemma_no_lost_wakeup(state: ParkState) {
    }
}

/// A bounded queue used between tiles whose consumer may sleep.
pub struct WaitQueue<T, W: WaitStrategy> {
    inner: Queue<T>,
    state: W::State,
}

impl<T, W: WaitStrategy> WaitQueue<T, W> {
    /// The queued items, oldest first.
    pub closed spec fn view(&self) -> Seq<T> {
        self.inner@
    }

    /// The number of items that the queue holds at most.
    pub closed spec fn spec_capacity(&self) -> nat {
        self.inner.spec_capacity()
    }

    /// The state of the wait strategy.
    pub closed spec fn wait_state(&self) -> W::State {
        self.state
    }

    /// The queue is consistent.
    pub closed spec fn wf(&self) -> bool {
        self.inner.wf()
    }

    /// Creates a bounded queue; a capacity of 0 counts as 1.
    #[must_use]
    pub fn new(capacity: usize) -> (r: Self)
        requires
            capacity * 16 <= isize::MAX,
        ensures
            r.wf(),
            r@ == Seq::<T>::empty(),
            r.spec_capacity() == (if capacity == 0 {
                1
            } else {
                capacity as nat
            }),
            !W::wakes(r.wait_state()),
            call_ensures(W::new_state, (), r.wait_state()),
    {
        WaitQueue { inner: Queue::new(capacity), state: W::new_state() }
    }

    /// Pushes one item, returning it when the queue is full. The result says
    /// whether the consumer has to be unparked.
    pub fn push(&mut self, item: T) -> (r: Result<bool, T>)
        requires
            old(self).wf(),
        ensures
            final(self).wf(),
            final(self).spec_capacity() == old(self).spec_capacity(),
            final(self).wait_state() == old(self).wait_state(),
            final(self)@ == pushed(old(self)@, old(self).spec_capacity(), item).1,
            match r {
                Ok(wake) => {
                    &&& pushed(old(self)@, old(self).spec_capacity(), item).0 == Ok::<(), T>(())
                    &&& wake == W::wakes(old(self).wait_state())
                },
                Err(back) => pushed(old(self)@, old(self).spec_capacity(), item).0 == Err::<(), T>(
                    back,
                ),
            },
    {
        match self.inner.push(item) {
            Ok(_) => Ok(W::on_push(&self.state)),
            Err(item) => Err(item),
        }
    }

    /// Pops one item.
    pub fn pop(&mut self) -> (r: Option<T>)
        requires
            old(self).wf(),
        ensures
            final(self).wf(),
            final(self).spec_capacity() == old(self).spec_capacity(),
            final(self).wait_state() == old(self).wait_state(),
            r == popped(old(self)@).0,
            final(self)@ == popped(old(self)@).1,
    {
        self.inner.pop()
    }

    /// Returns `true` if the queue is empty.
    #[must_use]
    pub fn is_empty(&self) -> (r: bool)
        requires
            self.wf(),
        ensures
            r == (self@.len() == 0),
    {
        self.inner.is_empty()
    }

    /// Returns the number of queued items.
    #[must_use]
    pub fn len(&self) -> (r: usize)
        requires
            self.wf(),
        ensures
            r == self@.len(),
    {
        self.inner.len()
    }

    /// Returns the queue capacity.
    #[must_use]
    pub fn capacity(&self) -> (r: usize)
        requires
            self.wf(),
        ensures
            r == self.spec_capacity(),
    {
        self.inner.capacity()
    }

    /// Registers the consumer.
    pub fn register_consumer(&mut self)
        requires
            old(self).wf(),
        ensures
            final(self).wf(),
            final(self)@ == old(self)@,
            final(self).spec_capacity() == old(self).spec_capacity(),
            W::registered(final(self).wait_state()),
    {
        W::register_consumer(&mut self.state);
    }

    /// Marks the consumer as about to sleep, then looks at the queue again.
    /// Returns whether it is still empty, so that the idle wait is to be made. From
    /// then on every push wakes a registered consumer that sleeps.
    pub fn begin_wait(&mut self) -> (r: bool)
        requires
            old(self).wf(),
        ensures
            final(self).wf(),
            final(self)@ == old(self)@,
            final(self).spec_capacity() == old(self).spec_capacity(),
            W::registered(final(self).wait_state()) == W::registered(old(self).wait_state()),
            W::asleep(final(self).wait_state()),
            r == (old(self)@.len() == 0),
    {
        W::set_sleeping(&mut self.state);
        self.inner.is_empty()
    }

    /// Marks the consumer as awake.
    pub fn end_wait(&mut self)
        requires
            old(self).wf(),
        ensures
            final(self).wf(),
            final(self)@ == old(self)@,
            final(self).spec_capacity() == old(self).spec_capacity(),
            W::registered(final(self).wait_state()) == W::registered(old(self).wait_state()),
            !W::wakes(final(self).wait_state()),
    {
        W::clear_sleeping(&mut self.state);
    }
}

/// Every queue is consistent.
pub open spec fn queues_wf<T, W: WaitStrategy>(queues: Seq<WaitQueue<T, W>>) -> bool {
    forall|i: int| 0 <= i < queues.len() ==> (#[trigger] queues[i]).wf()
}

/// Nothing is queued anywhere.
pub open spec fn all_empty<T, W: WaitStrategy>(queues: Seq<WaitQueue<T, W>>) -> bool {
    forall|i: int| 0 <= i < queues.len() ==> (#[trigger] queues[i])@.len() == 0
}

/// Marks the consumer of all queues as about to sleep, then looks at them again.
/// Returns whether all are still empty, so that the idle wait is to be made.
pub fn begin_wait_any_non_empty<T, W: WaitStrategy>(queues: &mut Vec<WaitQueue<T, W>>) -> (r: bool)
    requires
        queues_wf(old(queues)@),
    ensures
        queues_wf(final(queues)@),
        final(queues)@.len() == old(queues)@.len(),
        forall|i: int|
            0 <= i < final(queues)@.len() ==> {
                &&& (#[trigger] final(queues)@[i])@ == old(queues)@[i]@
                &&& final(queues)@[i].spec_capacity() == old(queues)@[i].spec_capacity()
                &&& W::registered(final(queues)@[i].wait_state()) == W::registered(
                    old(queues)@[i].wait_state(),
                )
                &&& W::asleep(final(queues)@[i].wait_state())
            },
        r == all_empty(old(queues)@),
{
    let mut empty = true;
    let mut at: usize = 0;
    while at < queues.len()
        invariant
            at <= queues@.len(),
            queues@.len() == old(queues)@.len(),
            queues_wf(queues@),
            empty == (forall|i: int| 0 <= i < at ==> (#[trigger] old(queues)@[i])@.len() == 0),
            forall|i: int|
                0 <= i < at ==> {
                    &&& (#[trigger] queues@[i])@ == old(queues)@[i]@
                    &&& queues@[i].spec_capacity() == old(queues)@[i].spec_capacity()
                    &&& W::registered(queues@[i].wait_state()) == W::registered(
                        old(queues)@[i].wait_state(),
                    )
                    &&& W::asleep(queues@[i].wait_state())
                },
            forall|i: int| at <= i < queues@.len() ==> (#[trigger] queues@[i]) == old(queues)@[i],
        decreases queues@.len() - at,
    {
        let ghost before = queues@;
        assert(queues@[at as int] == old(queues)@[at as int]);
        assert(queues@[at as int].wf());
        let still = queues[at].begin_wait();
        proof {
            assert forall|i: int| 0 <= i < queues@.len() implies (#[trigger] queues@[i]).wf() by {
                if i != at {
                    assert(queues@[i] == before[i]);
                }
            }
            assert forall|i: int| 0 <= i < at implies #[trigger] queues@[i] == before[i] by {}
        }
        if !still {
            assert(old(queues)@[at as int]@.len() != 0);
            empty = false;
        }
        at = at + 1;
    }
    empty
}

/// Marks the consumer of all queues as awake.
pub fn end_wait_any_non_empty<T, W: WaitStrategy>(queues: &mut Vec<WaitQueue<T, W>>)
    requires
        queues_wf(old(queues)@),
    ensures
        queues_wf(final(queues)@),
        final(queues)@.len() == old(queues)@.len(),
        forall|i: int|
            0 <= i < final(queues)@.len() ==> {
                &&& (#[trigger] final(queues)@[i])@ == old(queues)@[i]@
                &&& final(queues)@[i].spec_capacity() == old(queues)@[i].spec_capacity()
                &&& W::registered(final(queues)@[i].wait_state()) == W::registered(
                    old(queues)@[i].wait_state(),
                )
                &&& !W::wakes(final(queues)@[i].wait_state())
            },
{
    let mut at: usize = 0;
    while at < queues.len()
        invariant
            at <= queues@.len(),
            queues@.len() == old(queues)@.len(),
            queues_wf(queues@),
            forall|i: int|
                0 <= i < at ==> {
                    &&& (#[trigger] queues@[i])@ == old(queues)@[i]@
                    &&& queues@[i].spec_capacity() == old(queues)@[i].spec_capacity()
                    &&& W::registered(queues@[i].wait_state()) == W::registered(
                        old(queues)@[i].wait_state(),
                    )
                    &&& !W::wakes(queues@[i].wait_state())
                },
            forall|i: int| at <= i < queues@.len() ==> (#[trigger] queues@[i]) == old(queues)@[i],
        decreases queues@.len() - at,
    {
        let ghost before = queues@;
        assert(queues@[at as int] == old(queues)@[at as int]);
        assert(queues@[at as int].wf());
        queues[at].end_wait();
        proof {
            assert forall|i: int| 0 <= i < queues@.len() implies (#[trigger] queues@[i]).wf() by {
                if i != at {
                    assert(queues@[i] == before[i]);
                }
            }
            assert forall|i: int| 0 <= i < at implies #[trigger] queues@[i] == before[i] by {}
        }
        at = at + 1;
    }
}

/// No wakeup is lost: once a registered consumer has been told to sleep on an
/// empty queue, the next push says to wake it, or the consumer only spins.
pub proof fn law_no_lost_wakeup<T, W: WaitStrategy>(queue: WaitQueue<T, W>)
    requires
        W::registered(queue.wait_state()),
        W::asleep(queue.wait_state()),
    ensures
        W::wakes(queue.wait_state()) || forall|action: IdleAction|
            call_ensures(W::do_wait, (), action) ==> action == IdleAction::SpinLoop,
{
    W::lemma_no_lost_wakeup(queue.wait_state());
}

/// A queue that can be waited on is first in, first out, and a push says whether the
/// consumer has to be woken.
pub proof fn law_wait_queues_are_first_in_first_out<T, W: WaitStrategy>(item: T)
    ensures
        forall|queue: &mut WaitQueue<T, W>, r: Result<bool, T>| #[trigger]
            call_ensures(WaitQueue::<T, W>::push, (queue, item), r) ==> {
                &&& r is Ok <==> queue@.len() < queue.spec_capacity()
                &&& r is Ok ==> final(queue)@ == queue@ + seq![item]
                &&& r matches Ok(wake) ==> wake == W::wakes(queue.wait_state())
                &&& r matches Err(back) ==> back == item && final(queue)@ == queue@
            },
        forall|queue: &mut WaitQueue<T, W>, r: Option<T>| #[trigger]
            call_ensures(WaitQueue::<T, W>::pop, (queue,), r) ==> {
                &&& r is None <==> queue@.len() == 0
                &&& r matches Some(first) ==> queue@ == seq![first] + final(queue)@
                &&& r is None ==> final(queue)@ == queue@
            },
        forall|queue: &mut WaitQueue<T, W>, r: bool| #[trigger]
            call_ensures(WaitQueue::<T, W>::begin_wait, (queue,), r) ==> {
                &&& r <==> queue@.len() == 0
                &&& final(queue)@ == queue@
                &&& W::asleep(final(queue).wait_state())
            },
        forall|queue: &mut WaitQueue<T, W>| #[trigger]
            call_ensures(WaitQueue::<T, W>::end_wait, (queue,), ()) ==> final(queue)@ == queue@
                && !W::wakes(final(queue).wait_state()),
{
    assert forall|queue: &mut WaitQueue<T, W>, r: Result<bool, T>| #[trigger]
        call_ensures(WaitQueue::<T, W>::push, (queue, item), r) implies {
        &&& r is Ok <==> queue@.len() < queue.spec_capacity()
        &&& r is Ok ==> final(queue)@ == queue@ + seq![item]
        &&& r matches Ok(wake) ==> wake == W::wakes(queue.wait_state())
        &&& r matches Err(back) ==> back == item && final(queue)@ == queue@
    } by {
        assert(queue@.push(item) =~= queue@ + seq![item]);
    }
    assert forall|queue: &mut WaitQueue<T, W>, r: Option<T>| #[trigger]
        call_ensures(WaitQueue::<T, W>::pop, (queue,), r) implies {
        &&& r is None <==> queue@.len() == 0
        &&& r matches Some(first) ==> queue@ == seq![first] + final(queue)@
        &&& r is None ==> final(queue)@ == queue@
    } by {
        if queue@.len() > 0 {
            assert(queue@ =~= seq![queue@[0]] + queue@.skip(1));
        }
    }
}

/// A parking consumer is woken by a push once it is registered and sleeps, and not before
/// it sleeps or after it has woken. It parks for 50 microseconds. A spinning one is never
/// woken and never parks.
pub proof fn law_parked_consumers_are_woken(state: &ParkState, wake: bool, action: IdleAction)
    ensures
        call_ensures(Park::on_push, (state,), wake) ==> (wake <==> state.is_sleeping()
            && state.has_consumer()),
        call_ensures(Park::do_wait, (), action) ==> action == IdleAction::Park(50),
        call_ensures(Spin::do_wait, (), action) ==> action == IdleAction::SpinLoop,
        call_ensures(Spin::on_push, (&(),), wake) ==> !wake,
        forall|used: &mut ParkState| #[trigger]
            call_ensures(Park::set_sleeping, (used,), ()) ==> final(used).is_sleeping()
                && final(used).has_consumer() == used.has_consumer(),
        forall|used: &mut ParkState| #[trigger]
            call_ensures(Park::clear_sleeping, (used,), ()) ==> !final(used).is_sleeping()
                && final(used).has_consumer() == used.has_consumer(),
        forall|used: &mut ParkState| #[trigger]
            call_ensures(Park::register_consumer, (used,), ()) ==> final(used).has_consumer(),
        forall|fresh: ParkState| #[trigger]
            call_ensures(Park::new_state, (), fresh) ==> !fresh.is_sleeping()
                && !fresh.has_consumer(),
{
}

/// A consumer of several queues waits only where all of them are empty, and is then asleep
/// for each of them.
pub proof fn law_waiting_for_any_looks_at_all<T, W: WaitStrategy>(r: bool)
    ensures
        forall|queues: &mut Vec<WaitQueue<T, W>>| #[trigger]
            call_ensures(begin_wait_any_non_empty::<T, W>, (queues,), r) ==> {
                &&& r <==> forall|i: int|
                    0 <= i < queues@.len() ==> (#[trigger] queues@[i])@.len() == 0
                &&& forall|i: int|
                    0 <= i < queues@.len() ==> W::asleep(
                        (#[trigger] final(queues)@[i]).wait_state(),
                    ) && final(queues)@[i]@ == queues@[i]@
            },
        forall|queues: &mut Vec<WaitQueue<T, W>>| #[trigger]
            call_ensures(end_wait_any_non_empty::<T, W>, (queues,), ()) ==> forall|i: int|
                0 <= i < queues@.len() ==> !W::wakes((#[trigger] final(queues)@[i]).wait_state())
                    && final(queues)@[i]@ == queues@[i]@,
{
}

/// A new queue is empty, nobody is waiting at it, and it holds as much as was asked for, at
/// least one item.
pub proof fn law_new_wait_queues_are_empty<T, W: WaitStrategy>(capacity: usize, r: WaitQueue<T, W>)
    requires
        call_ensures(WaitQueue::<T, W>::new, (capacity,), r),
    ensures
        r@.len() == 0,
        capacity > 0 ==> r.spec_capacity() == capacity,
        capacity == 0 ==> r.spec_capacity() == 1,
        !W::wakes(r.wait_state()),
{
}

} // verus!
