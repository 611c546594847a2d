//! Bounded first-in first-out queue.

use crossbeam_queue::ArrayQueue;
use vstd::prelude::*;

verus! {

/// The bounded lock-free queue of the `crossbeam-queue` crate.
#[verifier::external_type_specification]
#[verifier::external_body]
#[verifier::reject_recursive_types(T)]
pub struct ExArrayQueue<T>(ArrayQueue<T>);

/// The numbers in an [`ArrayQueue`], oldest first.
pub uninterp spec fn queued_tokens(queue: ArrayQueue<usize>) -> Seq<usize>;

/// The number of elements that an [`ArrayQueue`] was made to hold.
pub uninterp spec fn queue_limit(queue: ArrayQueue<usize>) -> nat;

/// Calls [`ArrayQueue::new`]: an empty queue for `limit` elements.
///
/// The crate panics on a limit of 0 and on one whose slots, of 16 bytes each,
/// cannot be allocated.
#[verifier::external_body]
fn token_queue(limit: usize) -> (r: ArrayQueue<usize>)
    requires
        0 < limit,
        limit * 16 <= isize::MAX,
    ensures
        queued_tokens(r) == Seq::<usize>::empty(),
        queue_limit(r) == limit,
{
    ArrayQueue::new(limit)
}

/// Calls [`ArrayQueue::push`] with exclusive access to the queue: the token is
/// appended, or handed back when the queue is full.
#[verifier::external_body]
fn push_token(queue: &mut ArrayQueue<usize>, token: usize) -> (r: Result<(), usize>)
    ensures
        queue_limit(*final(queue)) == queue_limit(*old(queue)),
        if queued_tokens(*old(queue)).len() < queue_limit(*old(queue)) {
            &&& r == Ok::<(), usize>(())
            &&& queued_tokens(*final(queue)) == queued_tokens(*old(queue)).push(token)
        } else {
            &&& r == Err::<(), usize>(token)
            &&& queued_tokens(*final(queue)) == queued_tokens(*old(queue))
        },
{
    queue.push(token)
}

/// Calls [`ArrayQueue::pop`] with exclusive access to the queue: the oldest
/// token is removed, if there is one.
#[verifier::external_body]
fn pop_token(queue: &mut ArrayQueue<usize>) -> (r: Option<usize>)
    ensures
        queue_limit(*final(queue)) == queue_limit(*old(queue)),
        if queued_tokens(*old(queue)).len() > 0 {
            &&& r == Some(queued_tokens(*old(queue))[0])
            &&& queued_tokens(*final(queue)) == queued_tokens(*old(queue)).skip(1)
        } else {
            &&& r is None
            &&& queued_tokens(*final(queue)) == queued_tokens(*old(queue))
        },
{
    queue.pop()
}

/// Calls [`ArrayQueue::len`]: the number of tokens in the queue.
#[verifier::external_body]
fn token_count(queue: &ArrayQueue<usize>) -> (r: usize)
    ensures
        r == queued_tokens(*queue).len(),
{
    queue.len()
}

/// Calls [`ArrayQueue::is_empty`]: whether the queue holds no token.
#[verifier::external_body]
fn has_no_token(queue: &ArrayQueue<usize>) -> (r: bool)
    ensures
        r == (queued_tokens(*queue).len() == 0),
{
    queue.is_empty()
}

/// Calls [`ArrayQueue::capacity`]: the number of elements the queue was made for.
#[verifier::external_body]
fn token_limit(queue: &ArrayQueue<usize>) -> (r: usize)
    ensures
        r == queue_limit(*queue),
{
    queue.capacity()
}

/// Bounded queue: items leave in the order in which they came.
///
/// Each item lies in a slot of its own; the slot numbers travel through an
/// [`ArrayQueue`].
pub struct Queue<T> {
    tokens: ArrayQueue<usize>,
    items: Vec<Option<T>>,
    free: Vec<usize>,
}

impl<T> Queue<T> {
    closed spec fn order(&self) -> Seq<usize> {
        queued_tokens(self.tokens)
    }

    /// The queued items, oldest first.
    pub closed spec fn view(&self) -> Seq<T> {
        Seq::new(self.order().len(), |i: int| self.items@[self.order()[i] as int]->0)
    }

    /// The number of items that fit.
    pub closed spec fn spec_capacity(&self) -> nat {
        self.items@.len()
    }

    /// Every slot is either free or queued once, and queued slots hold an item.
    pub closed spec fn wf(&self) -> bool {
        &&& self.items@.len() > 0
        &&& queue_limit(self.tokens) == self.items@.len()
        &&& self.order().len() + self.free@.len() == self.items@.len()
        &&& forall|i: int|
            #![trigger self.order()[i]]
            0 <= i < self.order().len() ==> self.order()[i] < self.items@.len()
                && self.items@[self.order()[i] as int] is Some
        &&& forall|i: int|
            0 <= i < self.free@.len() ==> (#[trigger] self.free@[i]) < self.items@.len()
        &&& self.order().no_duplicates()
        &&& self.free@.no_duplicates()
        &&& forall|i: int, j: int|
            0 <= i < self.order().len() && 0 <= j < self.free@.len() ==> self.order()[i]
                != self.free@[j]
    }

    /// A queue never holds more items than its capacity, which is at least 1.
    pub proof fn lemma_bounded(&self)
        requires
            self.wf(),
        ensures
            self@.len() <= self.spec_capacity(),
            0 < self.spec_capacity(),
    {
    }

    /// Creates an empty queue for `capacity` items, or for one item if that is 0.
    #[must_use]
    pub fn new(capacity: usize) -> (r: Self)
        requires
            capacity * 16 <= isize::MAX,
        ensures
            r.wf(),
            r@ == Seq::<T>::empty(),
            r.spec_capacity() == (if capacity == 0 {
                1
            } else {
                capacity as nat
            }),
    {
        let limit: usize = if capacity == 0 {
            1
        } else {
            capacity
        };
        let mut items: Vec<Option<T>> = Vec::with_capacity(limit);
        let mut free: Vec<usize> = Vec::with_capacity(limit);
        let mut slot: usize = 0;
        while slot < limit
            invariant
                slot <= limit,
                items@.len() == slot,
                free@.len() == slot,
                forall|i: int| 0 <= i < slot ==> (#[trigger] free@[i]) == i,
            decreases limit - slot,
        {
            items.push(None);
            free.push(slot);
            slot = slot + 1;
        }
        let r = Queue { tokens: token_queue(limit), items, free };
        assert(r@ =~= Seq::<T>::empty());
        r
    }

    /// Appends `item`, or hands it back when the queue is full.
    pub fn push(&mut self, item: T) -> (r: Result<(), T>)
        requires
            old(self).wf(),
        ensures
            final(self).wf(),
            final(self).spec_capacity() == old(self).spec_capacity(),
            if old(self)@.len() < old(self).spec_capacity() {
                &&& r == Ok::<(), T>(())
                &&& final(self)@ == old(self)@.push(item)
            } else {
                &&& r == Err::<(), T>(item)
                &&& final(self)@ == old(self)@
            },
    {
        match self.free.pop() {
            None => {
                assert(self@ =~= old(self)@);
                Err(item)
            },
            Some(slot) => {
                proof {
                    assert(slot == old(self).free@.last());
                }
                self.items[slot] = Some(item);
                let _ = push_token(&mut self.tokens, slot);
                proof {
                    let before = old(self).order();
                    assert forall|i: int| 0 <= i < before.len() implies (#[trigger] before[i])
                        != slot by {
                        assert(before[i] != old(self).free@[old(self).free@.len() - 1]);
                    }
                    assert(self.order() =~= before.push(slot));
                    assert forall|i: int| 0 <= i < self.order().len() implies (
                    #[trigger] self.order()[i]) < self.items@.len()
                        && self.items@[self.order()[i] as int] is Some by {
                        if i < before.len() {
                            assert(self.order()[i] == before[i]);
                        }
                    }
                    assert forall|i: int, j: int|
                        0 <= i < self.order().len() && 0 <= j
                            < self.free@.len() implies self.order()[i] != self.free@[j] by {
                        assert(self.free@[j] == old(self).free@[j]);
                        if i < before.len() {
                            assert(self.order()[i] == before[i]);
                        }
                    }
                    assert(self@ =~= old(self)@.push(item));
                }
                Ok(())
            },
        }
    }

    /// Removes the oldest item, if there is one.
    pub fn pop(&mut self) -> (r: Option<T>)
        requires
            old(self).wf(),
        ensures
            final(self).wf(),
            final(self).spec_capacity() == old(self).spec_capacity(),
            if old(self)@.len() > 0 {
                &&& r == Some(old(self)@[0])
                &&& final(self)@ == old(self)@.skip(1)
            } else {
                &&& r is None
                &&& final(self)@ == old(self)@
            },
    {
        match pop_token(&mut self.tokens) {
            None => {
                assert(self@ =~= old(self)@);
                None
            },
            Some(slot) => {
                let ghost before = old(self).order();
                proof {
                    assert(before[0] == slot);
                    assert(self.order() =~= before.skip(1));
                }
                let item = self.items[slot].take();
                self.free.push(slot);
                proof {
                    assert forall|i: int| 0 <= i < self.order().len() implies (
                    #[trigger] self.order()[i]) == before[i + 1] && before[i + 1] != slot by {
                        assert(before[i + 1] != before[0]);
                    }
                    assert forall|j: int| 0 <= j < old(self).free@.len() implies (
                    #[trigger] self.free@[j]) == old(self).free@[j] && self.free@[j] != slot by {
                        assert(before[0] != old(self).free@[j]);
                    }
                    assert forall|i: int, j: int|
                        0 <= i < self.order().len() && 0 <= j
                            < self.free@.len() implies self.order()[i] != self.free@[j] by {
                        assert(self.order()[i] == before[i + 1]);
                        if j < old(self).free@.len() {
                            assert(before[i + 1] != old(self).free@[j]);
                        }
                    }
                    assert(self@ =~= old(self)@.skip(1));
                }
                item
            },
        }
    }

    /// Returns the number of queued items.
    #[must_use]
    pub fn len(&self) -> (r: usize)
        ensures
            r == self@.len(),
    {
        token_count(&self.tokens)
    }

    /// Returns `true` when nothing is queued.
    #[must_use]
    pub fn is_empty(&self) -> (r: bool)
        ensures
            r == (self@.len() == 0),
    {
        has_no_token(&self.tokens)
    }

    /// Returns the number of items that fit.
    #[must_use]
    pub fn capacity(&self) -> (r: usize)
        requires
            self.wf(),
        ensures
            r == self.spec_capacity(),
    {
        token_limit(&self.tokens)
    }
}

/// A queue holds as much as was asked for, at least one item. What is pushed goes behind
/// the rest, as long as there is room, and what has waited longest is popped.
pub proof fn law_queues_are_first_in_first_out<T>(capacity: usize, item: T)
    ensures
        forall|queue: Queue<T>| #[trigger]
            call_ensures(Queue::<T>::new, (capacity,), queue) ==> {
                &&& queue@.len() == 0
                &&& capacity > 0 ==> queue.spec_capacity() == capacity
                &&& capacity == 0 ==> queue.spec_capacity() == 1
            },
        forall|queue: &mut Queue<T>, r: Result<(), T>| #[trigger]
            call_ensures(Queue::<T>::push, (queue, item), r) ==> {
                &&& r is Ok <==> queue@.len() < queue.spec_capacity()
                &&& r is Ok ==> final(queue)@ == queue@ + seq![item]
                &&& r matches Err(back) ==> back == item && final(queue)@ == queue@
                &&& final(queue).spec_capacity() == queue.spec_capacity()
            },
        forall|queue: &mut Queue<T>, r: Option<T>| #[trigger]
            call_ensures(Queue::<T>::pop, (queue,), r) ==> {
                &&& r is None <==> queue@.len() == 0
                &&& r matches Some(first) ==> queue@ == seq![first] + final(queue)@
                &&& r is None ==> final(queue)@ == queue@
                &&& final(queue).spec_capacity() == queue.spec_capacity()
            },
{
    assert forall|queue: &mut Queue<T>, r: Result<(), T>| #[trigger]
        call_ensures(Queue::<T>::push, (queue, item), r) implies {
        &&& r is Ok <==> queue@.len() < queue.spec_capacity()
        &&& r is Ok ==> final(queue)@ == queue@ + seq![item]
        &&& r matches Err(back) ==> back == item && final(queue)@ == queue@
        &&& final(queue).spec_capacity() == queue.spec_capacity()
    } by {
        assert(queue@.push(item) =~= queue@ + seq![item]);
    }
    assert forall|queue: &mut Queue<T>, r: Option<T>| #[trigger]
        call_ensures(Queue::<T>::pop, (queue,), r) implies {
        &&& r is None <==> queue@.len() == 0
        &&& r matches Some(first) ==> queue@ == seq![first] + final(queue)@
        &&& r is None ==> final(queue)@ == queue@
        &&& final(queue).spec_capacity() == queue.spec_capacity()
    } by {
        if queue@.len() > 0 {
            assert(queue@ =~= seq![queue@[0]] + queue@.skip(1));
        }
    }
}

} // verus!
