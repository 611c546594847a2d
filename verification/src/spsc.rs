//! Queue endpoints for one producer thread and one consumer thread.
//!
//! Both endpoints share one [`SpscRing`] behind a lock. What an operation finds
//! in the ring depends on the other endpoint. Every operation is a call of the
//! ring's own operation on what it finds, and returns what that returns.

use std::sync::Arc;

use vstd::prelude::*;
use vstd::rwlock::{RwLock, RwLockPredicate};

use crate::ring::{popped, pushed, smaller, SpscRing};

verus! {

/// What stays true of a shared ring: it is consistent and keeps its capacity.
pub struct RingInvariant {
    /// The number of items that fit.
    pub capacity: usize,
}

impl<T> RwLockPredicate<SpscRing<T>> for RingInvariant {
    open spec fn inv(self, ring: SpscRing<T>) -> bool {
        ring.wf() && ring.spec_capacity() == self.capacity
    }
}

/// Calls [`Arc::clone`]: a second handle to the same value.
#[verifier::external_body]
fn share<T>(shared: &Arc<T>) -> (r: Arc<T>)
    ensures
        r == *shared,
{
    Arc::clone(shared)
}

/// Creates the two endpoints of a queue for `capacity` items, or for one item
/// if that is 0.
#[must_use]
pub fn spsc_pair<T>(capacity: usize) -> (r: (SpscProducer<T>, SpscConsumer<T>))
    ensures
        r.0.spec_capacity() == r.1.spec_capacity(),
        r.0.spec_capacity() == (if capacity == 0 {
            1
        } else if capacity == usize::MAX {
            (usize::MAX - 1) as nat
        } else {
            capacity as nat
        }),
{
    let ring: SpscRing<T> = SpscRing::new(capacity);
    let ghost kept = RingInvariant { capacity: ring.spec_capacity() as usize };
    proof {
        ring.lemma_bounded();
    }
    let queue = Arc::new(RwLock::new(ring, Ghost(kept)));
    let producer = SpscProducer { queue: share(&queue) };
    (producer, SpscConsumer { queue })
}

/// The end of a queue that items enter.
pub struct SpscProducer<T> {
    queue: Arc<RwLock<SpscRing<T>, RingInvariant>>,
}

impl<T> SpscProducer<T> {
    /// The number of items that fit in the queue.
    pub closed spec fn spec_capacity(&self) -> nat {
        self.queue.pred().capacity as nat
    }

    /// Appends `item`, or hands it back when the queue is full.
    pub fn push(&mut self, item: T) -> (r: Result<(), T>)
        ensures
            *final(self) == *old(self),
            exists|ring: &mut SpscRing<T>|
                {
                    &&& #[trigger] call_ensures(SpscRing::<T>::push, (ring, item), r)
                    &&& ring.wf()
                    &&& ring.spec_capacity() == old(self).spec_capacity()
                    &&& r == pushed(ring@, old(self).spec_capacity(), item).0
                },
    {
        let (mut ring, handle) = self.queue.acquire_write();
        let result = ring.push(item);
        handle.release_write(ring);
        result
    }

    /// Moves items from the front of `source` into the queue until one of them
    /// has no more, passing each through `map`. Returns how many were moved.
    pub fn push_many_from<U, F: Fn(U) -> T>(&mut self, source: &mut Vec<U>, map: F) -> (r: usize)
        requires
            forall|i: int|
                0 <= i < old(source)@.len() ==> call_requires(map, (#[trigger] old(source)@[i],)),
        ensures
            *final(self) == *old(self),
            final(source)@ == old(source)@.skip(r as int),
            exists|ring: &mut SpscRing<T>, items: &mut Vec<U>|
                {
                    &&& #[trigger] call_ensures(
                        SpscRing::<T>::push_many_from::<U, F>,
                        (ring, items, map),
                        r,
                    )
                    &&& ring.wf()
                    &&& ring.spec_capacity() == old(self).spec_capacity()
                    &&& items@ == old(source)@
                    &&& r == smaller(
                        old(source)@.len() as int,
                        ring.spec_capacity() - ring@.len(),
                    )
                },
    {
        let (mut ring, handle) = self.queue.acquire_write();
        let moved: usize = ring.push_many_from(source, map);
        handle.release_write(ring);
        moved
    }

    /// Returns the number of items in the queue.
    #[must_use]
    pub fn len(&self) -> (r: usize)
        ensures
            r <= self.spec_capacity(),
            exists|ring: SpscRing<T>|
                {
                    &&& #[trigger] call_ensures(SpscRing::<T>::len, (&ring,), r)
                    &&& ring.wf()
                    &&& ring.spec_capacity() == self.spec_capacity()
                    &&& r == ring@.len()
                },
    {
        let (ring, handle) = self.queue.acquire_write();
        proof {
            ring.lemma_bounded();
        }
        let count: usize = ring.len();
        handle.release_write(ring);
        count
    }

    /// Returns the number of items that can still be pushed.
    #[must_use]
    pub fn remaining_capacity(&self) -> (r: usize)
        ensures
            r <= self.spec_capacity(),
            exists|ring: SpscRing<T>|
                {
                    &&& #[trigger] call_ensures(SpscRing::<T>::remaining_capacity, (&ring,), r)
                    &&& ring.wf()
                    &&& ring.spec_capacity() == self.spec_capacity()
                    &&& r == ring.spec_capacity() - ring@.len()
                },
    {
        let (ring, handle) = self.queue.acquire_write();
        proof {
            ring.lemma_bounded();
        }
        let count: usize = ring.remaining_capacity();
        handle.release_write(ring);
        count
    }
}

/// The end of a queue that items leave.
pub struct SpscConsumer<T> {
    queue: Arc<RwLock<SpscRing<T>, RingInvariant>>,
}

impl<T> SpscConsumer<T> {
    /// The number of items that fit in the queue.
    pub closed spec fn spec_capacity(&self) -> nat {
        self.queue.pred().capacity as nat
    }

    /// Removes the oldest item, if there is one.
    pub fn pop(&mut self) -> (r: Option<T>)
        ensures
            *final(self) == *old(self),
            exists|ring: &mut SpscRing<T>|
                {
                    &&& #[trigger] call_ensures(SpscRing::<T>::pop, (ring,), r)
                    &&& ring.wf()
                    &&& ring.spec_capacity() == old(self).spec_capacity()
                    &&& r == popped(ring@).0
                },
    {
        let (mut ring, handle) = self.queue.acquire_write();
        let item = ring.pop();
        handle.release_write(ring);
        item
    }

    /// Moves up to `count` items to the end of `out`, oldest first.
    pub fn pop_into(&mut self, count: usize, out: &mut Vec<T>) -> (r: usize)
        ensures
            *final(self) == *old(self),
            exists|ring: &mut SpscRing<T>, items: &mut Vec<T>|
                {
                    &&& #[trigger] call_ensures(SpscRing::<T>::pop_into, (ring, count, items), r)
                    &&& ring.wf()
                    &&& ring.spec_capacity() == old(self).spec_capacity()
                    &&& r == smaller(count as int, ring@.len() as int)
                    &&& final(out)@ == old(out)@ + ring@.take(r as int)
                },
    {
        let (mut ring, handle) = self.queue.acquire_write();
        let moved: usize = ring.pop_into(count, out);
        handle.release_write(ring);
        moved
    }

    /// Returns `true` when the queue was empty.
    #[must_use]
    pub fn is_empty(&self) -> (r: bool)
        ensures
            exists|ring: SpscRing<T>|
                {
                    &&& #[trigger] call_ensures(SpscRing::<T>::is_empty, (&ring,), r)
                    &&& ring.wf()
                    &&& ring.spec_capacity() == self.spec_capacity()
                    &&& r == (ring@.len() == 0)
                },
    {
        let (ring, handle) = self.queue.acquire_write();
        let empty = ring.is_empty();
        handle.release_write(ring);
        empty
    }
}

/// Both ends of a pair know the same capacity: what was asked for, at least one.
pub proof fn law_pairs_share_their_capacity<T>(
    capacity: usize,
    r: (SpscProducer<T>, SpscConsumer<T>),
)
    requires
        call_ensures(spsc_pair::<T>, (capacity,), r),
    ensures
        r.0.spec_capacity() == r.1.spec_capacity(),
        0 < capacity < usize::MAX ==> r.0.spec_capacity() == capacity,
        capacity == 0 ==> r.0.spec_capacity() == 1,
{
}

} // verus!
