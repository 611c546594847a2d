//! Ring buffer for one producer and one consumer.

use vstd::prelude::*;

verus! {

/// The outcome of pushing onto a queue that holds `contents` and fits `capacity` items.
pub open spec fn pushed<T>(contents: Seq<T>, capacity: nat, item: T) -> (Result<(), T>, Seq<T>) {
    if contents.len() < capacity {
        (Ok(()), contents.push(item))
    } else {
        (Err(item), contents)
    }
}

/// The outcome of popping from a queue that holds `contents`.
pub open spec fn popped<T>(contents: Seq<T>) -> (Option<T>, Seq<T>) {
    if contents.len() > 0 {
        (Some(contents[0]), contents.skip(1))
    } else {
        (None, contents)
    }
}

/// The smaller of two counts.
pub open spec fn smaller(a: int, b: int) -> int {
    if a < b {
        a
    } else {
        b
    }
}

/// A pushed item comes out exactly after everything that was queued before it.
pub proof fn law_first_in_first_out<T>(contents: Seq<T>, capacity: nat, item: T)
    requires
        contents.len() < capacity,
    ensures
        ({
            let (accepted, after) = pushed(contents, capacity, item);
            &&& accepted is Ok
            &&& contents.len() == 0 ==> popped(after) == (Some(item), Seq::<T>::empty())
            &&& contents.len() > 0 ==> popped(after) == (
                Some(contents[0]),
                pushed(popped(contents).1, capacity, item).1,
            )
        }),
{
    let after = contents.push(item);
    if contents.len() == 0 {
        assert(after.skip(1) =~= Seq::<T>::empty());
    } else {
        assert(after.skip(1) =~= contents.skip(1).push(item));
    }
}

/// A full queue refuses an item, hands it back and stays as it was; after one
/// pop it takes the item.
pub proof fn law_full_queue_refuses<T>(contents: Seq<T>, capacity: nat, item: T)
    requires
        contents.len() == capacity,
        capacity > 0,
    ensures
        pushed(contents, capacity, item) == (Err::<(), T>(item), contents),
        pushed(popped(contents).1, capacity, item).0 is Ok,
{
}

/// Returns `items` in the opposite order.
pub fn reversed<T>(items: Vec<T>) -> (r: Vec<T>)
    ensures
        r@ == items@.reverse(),
{
    let mut rest = items;
    let ghost whole = rest@;
    let mut r: Vec<T> = Vec::with_capacity(rest.len());
    while rest.len() > 0
        invariant
            rest@.len() + r@.len() == whole.len(),
            forall|i: int| 0 <= i < rest@.len() ==> (#[trigger] rest@[i]) == whole[i],
            forall|i: int|
                0 <= i < r@.len() ==> (#[trigger] r@[i]) == whole[whole.len() - 1 - i],
        decreases rest@.len(),
    {
        if let Some(item) = rest.pop() {
            r.push(item);
        }
    }
    proof {
        assert(r@ =~= whole.reverse());
    }
    r
}

/// Ring buffer with one slot more than its capacity, so that equal positions
/// always mean that it is empty.
pub struct SpscRing<T> {
    buffer: Vec<Option<T>>,
    head: usize,
    tail: usize,
}

impl<T> SpscRing<T> {
    closed spec fn count(&self) -> int {
        if self.tail >= self.head {
            self.tail - self.head
        } else {
            self.buffer@.len() - self.head + self.tail
        }
    }

    closed spec fn slot(&self, i: int) -> int {
        if self.head + i < self.buffer@.len() {
            self.head + i
        } else {
            self.head + i - self.buffer@.len()
        }
    }

    /// The queued items, oldest first.
    pub closed spec fn view(&self) -> Seq<T> {
        Seq::new(self.count() as nat, |i: int| self.buffer@[self.slot(i)]->0)
    }

    /// The number of items that fit.
    pub closed spec fn spec_capacity(&self) -> nat {
        (self.buffer@.len() - 1) as nat
    }

    /// Both positions lie in the buffer and every queued slot holds an item.
    pub closed spec fn wf(&self) -> bool {
        &&& self.buffer@.len() >= 2
        &&& self.head < self.buffer@.len()
        &&& self.tail < self.buffer@.len()
        &&& forall|i: int|
            0 <= i < self.count() ==> self.buffer@[#[trigger] self.slot(i)] is Some
    }

    /// A ring never holds more items than its capacity, which is at least 1.
    pub proof fn lemma_bounded(&self)
        requires
            self.wf(),
        ensures
            self@.len() <= self.spec_capacity(),
            0 < self.spec_capacity() < usize::MAX,
    {
        assert(self.buffer.len() == self.buffer@.len());
    }

    /// Creates an empty ring for `capacity` items, or for one item if that is 0.
    #[must_use]
    pub fn new(capacity: usize) -> (r: Self)
        ensures
            r.wf(),
            r@ == Seq::<T>::empty(),
            r.spec_capacity() == (if capacity == 0 {
                1
            } else if capacity == usize::MAX {
                (usize::MAX - 1) as nat
            } else {
                capacity as nat
            }),
    {
        let wanted: usize = if capacity == 0 {
            1
        } else {
            capacity
        };
        let slots: usize = wanted.saturating_add(1);
        let mut buffer: Vec<Option<T>> = Vec::with_capacity(slots);
        let mut at: usize = 0;
        while at < slots
            invariant
                at <= slots,
                buffer@.len() == at,
            decreases slots - at,
        {
            buffer.push(None);
            at = at + 1;
        }
        let r = SpscRing { buffer, head: 0, tail: 0 };
        assert(r@ =~= Seq::<T>::empty());
        r
    }

    fn next(&self, index: usize) -> (r: usize)
        requires
            index < self.buffer@.len(),
        ensures
            r == (if index + 1 == self.buffer@.len() {
                0
            } else {
                index + 1
            }),
    {
        if index == self.buffer.len() - 1 {
            0
        } else {
            index + 1
        }
    }

    /// Appends `item`, or hands it back when the ring is full.
    pub fn push(&mut self, item: T) -> (r: Result<(), T>)
        requires
            old(self).wf(),
        ensures
            final(self).wf(),
            final(self).spec_capacity() == old(self).spec_capacity(),
            r == pushed(old(self)@, old(self).spec_capacity(), item).0,
            final(self)@ == pushed(old(self)@, old(self).spec_capacity(), item).1,
    {
        let next_tail: usize = self.next(self.tail);
        if next_tail == self.head {
            return Err(item);
        }
        let tail: usize = self.tail;
        proof {
            assert(self.slot(self.count()) == tail);
            assert forall|i: int| 0 <= i < self.count() implies #[trigger] self.slot(i)
                != tail by {}
        }
        self.buffer[tail] = Some(item);
        self.tail = next_tail;
        proof {
            assert(self.count() == old(self).count() + 1);
            assert forall|i: int| 0 <= i < self.count() implies self.buffer@[#[trigger] self.slot(
                i,
            )] is Some by {
                assert(self.slot(i) == old(self).slot(i));
            }
            assert forall|i: int| 0 <= i < old(self).count() implies self@[i] == old(self)@[i] by {
                assert(self.slot(i) == old(self).slot(i));
            }
            assert(self@ =~= old(self)@.push(item));
        }
        Ok(())
    }

    /// Removes the oldest item, if there is one.
    pub fn pop(&mut self) -> (r: Option<T>)
        requires
            old(self).wf(),
        ensures
            final(self).wf(),
            final(self).spec_capacity() == old(self).spec_capacity(),
            r == popped(old(self)@).0,
            final(self)@ == popped(old(self)@).1,
    {
        if self.head == self.tail {
            return None;
        }
        let head: usize = self.head;
        proof {
            assert(self.slot(0) == head);
            assert forall|i: int| 0 < i < self.count() implies #[trigger] self.slot(i)
                != head by {}
        }
        let item = self.buffer[head].take();
        let next_head: usize = self.next(head);
        self.head = next_head;
        proof {
            assert(self.count() == old(self).count() - 1);
            assert forall|i: int| 0 <= i < self.count() implies self.buffer@[#[trigger] self.slot(
                i,
            )] is Some && self@[i] == old(self)@[i + 1] by {
                assert(self.slot(i) == old(self).slot(i + 1));
            }
            assert(self@ =~= old(self)@.skip(1));
        }
        item
    }

    /// Moves up to `count` items to the end of `out`, oldest first.
    pub fn pop_into(&mut self, count: usize, out: &mut Vec<T>) -> (r: usize)
        requires
            old(self).wf(),
        ensures
            final(self).wf(),
            final(self).spec_capacity() == old(self).spec_capacity(),
            r == smaller(count as int, old(self)@.len() as int),
            final(out)@ == old(out)@ + old(self)@.take(r as int),
            final(self)@ == old(self)@.skip(r as int),
    {
        let mut written: usize = 0;
        proof {
            assert(old(out)@ + old(self)@.take(0) =~= old(out)@);
            assert(old(self)@.skip(0) =~= old(self)@);
        }
        while written < count
            invariant
                written <= count,
                self.wf(),
                self.spec_capacity() == old(self).spec_capacity(),
                written <= old(self)@.len(),
                self@ == old(self)@.skip(written as int),
                out@ == old(out)@ + old(self)@.take(written as int),
            ensures
                written <= count,
                self.wf(),
                self.spec_capacity() == old(self).spec_capacity(),
                written == smaller(count as int, old(self)@.len() as int),
                self@ == old(self)@.skip(written as int),
                out@ == old(out)@ + old(self)@.take(written as int),
            decreases count - written,
        {
            match self.pop() {
                None => {
                    break;
                },
                Some(item) => {
                    out.push(item);
                    proof {
                        assert(old(self)@.skip(written as int).skip(1) =~= old(self)@.skip(
                            written as int + 1,
                        ));
                        assert(old(out)@ + old(self)@.take(written as int + 1) =~= (old(out)@
                            + old(self)@.take(written as int)).push(item));
                    }
                    written = written + 1;
                },
            }
        }
        written
    }

    /// Moves items from the front of `source` into the ring until one of them
    /// has no more, passing each through `map`. Returns how many were moved.
    pub fn push_many_from<U, F: Fn(U) -> T>(&mut self, source: &mut Vec<U>, map: F) -> (r: usize)
        requires
            old(self).wf(),
            forall|i: int|
                0 <= i < old(source)@.len() ==> call_requires(map, (#[trigger] old(source)@[i],)),
        ensures
            final(self).wf(),
            final(self).spec_capacity() == old(self).spec_capacity(),
            r == smaller(
                old(source)@.len() as int,
                old(self).spec_capacity() - old(self)@.len(),
            ),
            final(source)@ == old(source)@.skip(r as int),
            final(self)@.len() == old(self)@.len() + r,
            final(self)@.take(old(self)@.len() as int) == old(self)@,
            forall|i: int|
                0 <= i < r ==> call_ensures(
                    map,
                    (#[trigger] old(source)@[i],),
                    final(self)@[old(self)@.len() + i],
                ),
    {
        let length: usize = source.len();
        let available: usize = self.remaining_capacity();
        let accepted: usize = if length < available {
            length
        } else {
            available
        };
        let ghost queued = self@;
        let ghost items = source@;
        let mut rest: Vec<U> = source.split_off(accepted);
        core::mem::swap(source, &mut rest);
        proof {
            assert(rest@ =~= items.take(accepted as int));
            assert(source@ =~= items.skip(accepted as int));
        }
        let mut moving = reversed(rest);
        let mut moved: usize = 0;
        while moved < accepted
            invariant
                moved <= accepted <= items.len(),
                moving@.len() == accepted - moved,
                self.wf(),
                self.spec_capacity() == old(self).spec_capacity(),
                accepted <= old(self).spec_capacity() - queued.len(),
                self@.len() == queued.len() + moved,
                self@.take(queued.len() as int) == queued,
                forall|i: int|
                    0 <= i < items.len() ==> call_requires(map, (#[trigger] items[i],)),
                forall|i: int|
                    0 <= i < moving@.len() ==> (#[trigger] moving@[i]) == items[accepted - 1 - i],
                forall|i: int|
                    0 <= i < moved ==> call_ensures(
                        map,
                        (#[trigger] items[i],),
                        self@[queued.len() + i],
                    ),
            decreases accepted - moved,
        {
            if let Some(item) = moving.pop() {
                assert(item == items[moved as int]);
                let ghost before = self@;
                let mapped = map(item);
                let _ = self.push(mapped);
                proof {
                    assert(self@ == before.push(mapped));
                    assert(self@.take(queued.len() as int) =~= before.take(queued.len() as int));
                    assert forall|i: int| 0 <= i < moved + 1 implies call_ensures(
                        map,
                        (#[trigger] items[i],),
                        self@[queued.len() + i],
                    ) by {
                        if i < moved {
                            assert(self@[queued.len() + i] == before[queued.len() + i]);
                        }
                    }
                }
            }
            moved = moved + 1;
        }
        accepted
    }

    /// Returns the number of queued items.
    #[must_use]
    pub fn len(&self) -> (r: usize)
        requires
            self.wf(),
        ensures
            r == self@.len(),
    {
        if self.tail >= self.head {
            self.tail - self.head
        } else {
            self.buffer.len() - self.head + self.tail
        }
    }

    /// Returns `true` when nothing is queued.
    #[must_use]
    pub fn is_empty(&self) -> (r: bool)
        requires
            self.wf(),
        ensures
            r == (self@.len() == 0),
    {
        self.head == self.tail
    }

    /// Returns the number of items that fit.
    #[must_use]
    pub fn capacity(&self) -> (r: usize)
        requires
            self.wf(),
        ensures
            r == self.spec_capacity(),
    {
        self.buffer.len() - 1
    }

    /// Returns the number of items that can still be pushed.
    #[must_use]
    pub fn remaining_capacity(&self) -> (r: usize)
        requires
            self.wf(),
        ensures
            r == self.spec_capacity() - self@.len(),
    {
        self.capacity().saturating_sub(self.len())
    }
}

/// A ring holds as much as was asked for, at least one item. What is pushed goes behind the
/// rest, as long as there is room, and what has waited longest is popped.
pub proof fn law_rings_are_first_in_first_out<T>(capacity: usize, item: T)
    ensures
        forall|ring: SpscRing<T>| #[trigger]
            call_ensures(SpscRing::<T>::new, (capacity,), ring) ==> {
                &&& ring@.len() == 0
                &&& 0 < capacity < usize::MAX ==> ring.spec_capacity() == capacity
                &&& capacity == 0 ==> ring.spec_capacity() == 1
            },
        forall|ring: &mut SpscRing<T>, r: Result<(), T>| #[trigger]
            call_ensures(SpscRing::<T>::push, (ring, item), r) ==> {
                &&& r is Ok <==> ring@.len() < ring.spec_capacity()
                &&& r is Ok ==> final(ring)@ == ring@ + seq![item]
                &&& r matches Err(back) ==> back == item && final(ring)@ == ring@
                &&& final(ring).spec_capacity() == ring.spec_capacity()
            },
        forall|ring: &mut SpscRing<T>, r: Option<T>| #[trigger]
            call_ensures(SpscRing::<T>::pop, (ring,), r) ==> {
                &&& r is None <==> ring@.len() == 0
                &&& r matches Some(first) ==> ring@ == seq![first] + final(ring)@
                &&& r is None ==> final(ring)@ == ring@
                &&& final(ring).spec_capacity() == ring.spec_capacity()
            },
        forall|ring: &SpscRing<T>, r: usize| #[trigger]
            call_ensures(SpscRing::<T>::len, (ring,), r) ==> r == ring@.len(),
        forall|ring: &SpscRing<T>, r: usize| #[trigger]
            call_ensures(SpscRing::<T>::remaining_capacity, (ring,), r) ==> r + ring@.len()
                == ring.spec_capacity(),
{
    assert forall|ring: &mut SpscRing<T>, r: Result<(), T>| #[trigger]
        call_ensures(SpscRing::<T>::push, (ring, item), r) implies {
        &&& r is Ok <==> ring@.len() < ring.spec_capacity()
        &&& r is Ok ==> final(ring)@ == ring@ + seq![item]
        &&& r matches Err(back) ==> back == item && final(ring)@ == ring@
        &&& final(ring).spec_capacity() == ring.spec_capacity()
    } by {
        assert(ring@.push(item) =~= ring@ + seq![item]);
    }
    assert forall|ring: &mut SpscRing<T>, r: Option<T>| #[trigger]
        call_ensures(SpscRing::<T>::pop, (ring,), r) implies {
        &&& r is None <==> ring@.len() == 0
        &&& r matches Some(first) ==> ring@ == seq![first] + final(ring)@
        &&& r is None ==> final(ring)@ == ring@
        &&& final(ring).spec_capacity() == ring.spec_capacity()
    } by {
        if ring@.len() > 0 {
            assert(ring@ =~= seq![ring@[0]] + ring@.skip(1));
        }
    }
}

/// Many items are popped or pushed as if one by one: in order, as many as are wanted and
/// there are, and as many as there is room for.
pub proof fn law_rings_move_many_in_order<T, U, F: Fn(U) -> T>(count: usize, map: F, r: usize)
    ensures
        forall|ring: &mut SpscRing<T>, out: &mut Vec<T>| #[trigger]
            call_ensures(SpscRing::<T>::pop_into, (ring, count, out), r) ==> {
                &&& r <= count && r <= ring@.len()
                &&& r == count || r == ring@.len()
                &&& final(out)@ == out@ + ring@.take(r as int)
                &&& ring@ == ring@.take(r as int) + final(ring)@
            },
        forall|ring: &mut SpscRing<T>, source: &mut Vec<U>|
            #![trigger call_ensures(SpscRing::<T>::push_many_from::<U, F>, (ring, source, map), r)]
            call_ensures(SpscRing::<T>::push_many_from::<U, F>, (ring, source, map), r)
                && ring@.len() <= ring.spec_capacity() ==> {
                &&& r <= source@.len() && ring@.len() + r <= ring.spec_capacity()
                &&& r == source@.len() || ring@.len() + r == ring.spec_capacity()
                &&& source@ == source@.take(r as int) + final(source)@
                &&& final(ring)@.len() == ring@.len() + r
                &&& final(ring)@.take(ring@.len() as int) == ring@
                &&& forall|i: int|
                    0 <= i < r ==> call_ensures(
                        map,
                        (#[trigger] source@[i],),
                        final(ring)@[ring@.len() + i],
                    )
            },
{
    assert forall|ring: &mut SpscRing<T>, out: &mut Vec<T>| #[trigger]
        call_ensures(SpscRing::<T>::pop_into, (ring, count, out), r) implies {
        &&& r <= count && r <= ring@.len()
        &&& r == count || r == ring@.len()
        &&& final(out)@ == out@ + ring@.take(r as int)
        &&& ring@ == ring@.take(r as int) + final(ring)@
    } by {
        assert(ring@ =~= ring@.take(r as int) + ring@.skip(r as int));
    }
    assert forall|ring: &mut SpscRing<T>, source: &mut Vec<U>|
        #![trigger call_ensures(SpscRing::<T>::push_many_from::<U, F>, (ring, source, map), r)]
        call_ensures(SpscRing::<T>::push_many_from::<U, F>, (ring, source, map), r) && ring@.len()
            <= ring.spec_capacity() implies {
        &&& r <= source@.len() && ring@.len() + r <= ring.spec_capacity()
        &&& r == source@.len() || ring@.len() + r == ring.spec_capacity()
        &&& source@ == source@.take(r as int) + final(source)@
        &&& final(ring)@.len() == ring@.len() + r
        &&& final(ring)@.take(ring@.len() as int) == ring@
        &&& forall|i: int|
            0 <= i < r ==> call_ensures(
                map,
                (#[trigger] source@[i],),
                final(ring)@[ring@.len() + i],
            )
    } by {
        assert(source@ =~= source@.take(r as int) + source@.skip(r as int));
    }
}

/// What is reversed comes out last to first.
pub proof fn law_reversing_twice_changes_nothing<T>(items: Vec<T>, once: Vec<T>, twice: Vec<T>)
    requires
        call_ensures(reversed::<T>, (items,), once),
        call_ensures(reversed::<T>, (once,), twice),
    ensures
        twice@ == items@,
        once@.len() == items@.len(),
        items@.len() > 0 ==> once@[0] == items@.last(),
{
}

} // verus!
