//! Transmit scheduling of a tile: which lane packets go to which socket, and when.

use vstd::prelude::*;

use crate::batch::TxSlot;
use crate::buffer::{PacketBuffer, PacketBufferMut};
use crate::ring::{popped, smaller, SpscRing};
use crate::tile::{SocketIndex, TileConfig, TileTxBuffer, TileTxMeta, TileTxPacket};
use crate::udp::{UdpSocket, UdpTransmit, UdpTxBuffer};

verus! {

/// `counter` after counting `n` more events, wrapping at 64 bits.
pub open spec fn bumped(counter: u64, n: nat) -> u64 {
    ((counter as int + n) % 0x1_0000_0000_0000_0000) as u64
}

/// Counts `n` more events.
pub fn bump(counter: &mut u64, n: usize)
    ensures
        *final(counter) == bumped(*old(counter), n as nat),
{
    *counter = counter.wrapping_add(n as u64);
}

/// Counting in two steps is counting once.
pub proof fn lemma_bumped_adds(counter: u64, first: nat, second: nat)
    ensures
        bumped(bumped(counter, first), second) == bumped(counter, first + second),
        bumped(counter, 0) == counter,
{
    vstd::arithmetic::div_mod::lemma_add_mod_noop(
        counter as int + first,
        second as int,
        0x1_0000_0000_0000_0000,
    );
    let step = (counter as int + first) % 0x1_0000_0000_0000_0000;
    vstd::arithmetic::div_mod::lemma_add_mod_noop(step, second as int, 0x1_0000_0000_0000_0000);
    vstd::arithmetic::div_mod::lemma_mod_twice(counter as int + first, 0x1_0000_0000_0000_0000);
}

/// The larger of the queue capacity and the batch size, at least 1.
pub open spec fn tx_work_capacity_spec(config: TileConfig) -> usize {
    if config.queue_capacity >= config.batch_size && config.queue_capacity >= 1 {
        config.queue_capacity
    } else if config.batch_size >= 1 {
        config.batch_size
    } else {
        1
    }
}

/// Returns how many packets a lane may queue, and a socket may have pending.
pub fn tx_work_capacity(config: TileConfig) -> (r: usize)
    ensures
        r == tx_work_capacity_spec(config),
        r >= 1,
        r >= config.queue_capacity,
        r >= config.batch_size,
{
    if config.queue_capacity >= config.batch_size && config.queue_capacity >= 1 {
        config.queue_capacity
    } else if config.batch_size >= 1 {
        config.batch_size
    } else {
        1
    }
}

/// Decides which sockets take more transmit work in one pass.
///
/// Only sockets that had nothing pending when the pass began are open, and only
/// up to a fixed number of pending packets.
pub struct TxAdmission {
    open: Vec<bool>,
    capacity: usize,
}

/// Some open socket has room for another packet.
pub open spec fn some_room<T>(open: Seq<bool>, capacity: nat, pending: Seq<Vec<T>>) -> bool {
    exists|i: int| 0 <= i < pending.len() && #[trigger] open[i] && pending[i]@.len() < capacity
}

/// The socket `index` takes `required` more packets: it is open, and has
/// nothing pending or enough room.
pub open spec fn admits<T>(
    open: Seq<bool>,
    capacity: nat,
    pending: Seq<Vec<T>>,
    index: int,
    required: nat,
) -> bool {
    open[index] && (pending[index]@.len() == 0 || pending[index]@.len() + required <= capacity)
}

impl TxAdmission {
    /// Which sockets are open.
    pub closed spec fn view(&self) -> Seq<bool> {
        self.open@
    }

    /// The number of packets that a socket may have pending.
    pub closed spec fn limit(&self) -> nat {
        self.capacity as nat
    }

    /// There is room for at least one packet.
    pub open spec fn wf(&self) -> bool {
        1 <= self.limit() <= usize::MAX
    }

    /// Creates the admission state of `socket_count` closed sockets.
    #[must_use]
    pub fn new(socket_count: usize, config: TileConfig) -> (r: Self)
        ensures
            r.wf(),
            r.limit() == tx_work_capacity_spec(config),
            r@ == Seq::new(socket_count as nat, |i: int| false),
    {
        let mut open: Vec<bool> = Vec::new();
        while open.len() < socket_count
            invariant
                open@.len() <= socket_count,
                forall|i: int| 0 <= i < open@.len() ==> !(#[trigger] open@[i]),
            decreases socket_count - open@.len(),
        {
            open.push(false);
        }
        let r = TxAdmission { open, capacity: tx_work_capacity(config) };
        assert(r@ =~= Seq::new(socket_count as nat, |i: int| false));
        r
    }

    /// Opens exactly the sockets that have nothing pending.
    pub fn reset<T>(&mut self, pending: &Vec<Vec<T>>)
        requires
            old(self).wf(),
            old(self)@.len() == pending@.len(),
        ensures
            final(self).wf(),
            final(self).limit() == old(self).limit(),
            final(self)@ == Seq::new(pending@.len(), |i: int| pending@[i]@.len() == 0),
    {
        let mut at: usize = 0;
        while at < pending.len()
            invariant
                at <= pending@.len(),
                self.open@.len() == pending@.len(),
                self.capacity == old(self).capacity,
                forall|i: int|
                    0 <= i < at ==> (#[trigger] self.open@[i]) == (pending@[i]@.len() == 0),
            decreases pending@.len() - at,
        {
            self.open[at] = pending[at].len() == 0;
            at = at + 1;
        }
        proof {
            assert(self@ =~= Seq::new(pending@.len(), |i: int| pending@[i]@.len() == 0));
        }
    }

    /// Returns whether some open socket has room for another packet.
    pub fn has_capacity<T>(&self, pending: &Vec<Vec<T>>) -> (r: bool)
        requires
            self@.len() == pending@.len(),
        ensures
            r == some_room(self@, self.limit(), pending@),
    {
        let mut at: usize = 0;
        while at < pending.len()
            invariant
                at <= pending@.len(),
                self.open@.len() == pending@.len(),
                forall|i: int|
                    0 <= i < at ==> !((#[trigger] self.open@[i]) && pending@[i]@.len()
                        < self.capacity),
            decreases pending@.len() - at,
        {
            if self.open[at] && pending[at].len() < self.capacity {
                assert(self@[at as int]);
                return true;
            }
            at = at + 1;
        }
        false
    }

    /// Returns whether the socket `index` takes `required` more packets.
    pub fn can_admit<T>(&self, pending: &Vec<Vec<T>>, index: usize, required: usize) -> (r: bool)
        requires
            self@.len() == pending@.len(),
            index < pending@.len(),
        ensures
            r == admits(self@, self.limit(), pending@, index as int, required as nat),
    {
        let count: usize = pending[index].len();
        self.open[index] && (count == 0 || (required <= self.capacity && count <= self.capacity
            - required))
    }

    /// Returns how many more packets the socket `index` takes.
    pub fn remaining_capacity<T>(&self, pending: &Vec<Vec<T>>, index: usize) -> (r: usize)
        requires
            self@.len() == pending@.len(),
            index < pending@.len(),
        ensures
            r == (if self@[index as int] && pending@[index as int]@.len() < self.limit() {
                self.limit() - pending@[index as int]@.len()
            } else {
                0
            }),
    {
        if self.open[index] {
            self.capacity.saturating_sub(pending[index].len())
        } else {
            0
        }
    }
}

/// Returns the next socket in round-robin order and moves on.
pub fn choose_next_target_socket(socket_count: usize, next_tx_socket: &mut usize) -> (r: usize)
    requires
        socket_count > 0,
    ensures
        r == *old(next_tx_socket) % socket_count,
        *final(next_tx_socket) == next_turn(*old(next_tx_socket)),
{
    let index: usize = *next_tx_socket % socket_count;
    *next_tx_socket = next_tx_socket.wrapping_add(1);
    index
}

/// The turn after `turn`, wrapping at the end of the range.
pub open spec fn next_turn(turn: usize) -> usize {
    if turn == usize::MAX {
        0
    } else {
        (turn + 1) as usize
    }
}

/// The first socket that admits `required` packets when `left` sockets are
/// asked in turn, and the turn after it.
pub open spec fn round_robin<T>(
    open: Seq<bool>,
    capacity: nat,
    pending: Seq<Vec<T>>,
    required: nat,
    turn: usize,
    left: nat,
) -> (Option<int>, usize)
    decreases left,
{
    if left == 0 {
        (None, turn)
    } else {
        let index = turn as int % pending.len() as int;
        if admits(open, capacity, pending, index, required) {
            (Some(index), next_turn(turn))
        } else {
            round_robin(open, capacity, pending, required, next_turn(turn), (left - 1) as nat)
        }
    }
}

/// Returns the first socket in round-robin order that takes `required` packets.
pub fn choose_target_socket_with_admission<T>(
    pending: &Vec<Vec<T>>,
    admission: &TxAdmission,
    required: usize,
    next_tx_socket: &mut usize,
) -> (r: Option<usize>)
    requires
        admission@.len() == pending@.len(),
    ensures
        ({
            let chosen = round_robin(
                admission@,
                admission.limit(),
                pending@,
                required as nat,
                *old(next_tx_socket),
                pending@.len(),
            );
            &&& *final(next_tx_socket) == chosen.1
            &&& match chosen.0 {
                Some(index) => r matches Some(found) && found == index,
                None => r is None,
            }
        }),
        r matches Some(index) ==> {
            &&& index < pending@.len()
            &&& admits(admission@, admission.limit(), pending@, index as int, required as nat)
        },
{
    let count: usize = pending.len();
    let mut asked: usize = 0;
    while asked < count
        invariant
            asked <= count,
            count == pending@.len(),
            admission@.len() == pending@.len(),
            round_robin(
                admission@,
                admission.limit(),
                pending@,
                required as nat,
                *old(next_tx_socket),
                pending@.len(),
            ) == round_robin(
                admission@,
                admission.limit(),
                pending@,
                required as nat,
                *next_tx_socket,
                (count - asked) as nat,
            ),
        decreases count - asked,
    {
        let target: usize = choose_next_target_socket(count, next_tx_socket);
        if admission.can_admit(pending, target, required) {
            return Some(target);
        }
        asked = asked + 1;
    }
    None
}

proof fn lemma_round_robin_none<T>(
    open: Seq<bool>,
    capacity: nat,
    pending: Seq<Vec<T>>,
    required: nat,
    turn: usize,
    left: nat,
)
    requires
        turn + left <= usize::MAX,
        pending.len() > 0,
        round_robin(open, capacity, pending, required, turn, left).0 is None,
    ensures
        forall|k: int|
            0 <= k < left ==> !admits(
                open,
                capacity,
                pending,
                #[trigger] ((turn + k) % pending.len() as int),
                required,
            ),
    decreases left,
{
    if left > 0 {
        lemma_round_robin_none(
            open,
            capacity,
            pending,
            required,
            next_turn(turn),
            (left - 1) as nat,
        );
        assert forall|k: int| 0 <= k < left implies !admits(
            open,
            capacity,
            pending,
            #[trigger] ((turn + k) % pending.len() as int),
            required,
        ) by {
            if k > 0 {
                assert((turn + k) % pending.len() as int == (next_turn(turn) + (k - 1))
                    % pending.len() as int);
            }
        }
    }
}

/// Round robin asks every socket once: as long as the turn counter does not
/// wrap, a socket that admits the work is found.
pub proof fn law_round_robin_is_complete<T>(
    open: Seq<bool>,
    capacity: nat,
    pending: Seq<Vec<T>>,
    required: nat,
    turn: usize,
    index: int,
)
    requires
        turn + pending.len() <= usize::MAX,
        0 <= index < pending.len(),
        admits(open, capacity, pending, index, required),
    ensures
        round_robin(open, capacity, pending, required, turn, pending.len()).0 is Some,
{
    let count = pending.len() as int;
    if round_robin(open, capacity, pending, required, turn, pending.len()).0 is None {
        lemma_round_robin_none(open, capacity, pending, required, turn, pending.len());
        let behind = turn as int % count;
        let k = if index >= behind {
            index - behind
        } else {
            index - behind + count
        };
        assert((turn + k) % count == index) by {
            vstd::arithmetic::div_mod::lemma_fundamental_div_mod(turn as int, count);
            let whole = turn as int / count;
            if index >= behind {
                assert(whole * count == count * whole) by (nonlinear_arith);
                vstd::arithmetic::div_mod::lemma_fundamental_div_mod_converse(
                    turn + k,
                    count,
                    whole,
                    index,
                );
            } else {
                assert((whole + 1) * count == count * whole + count) by (nonlinear_arith);
                vstd::arithmetic::div_mod::lemma_fundamental_div_mod_converse(
                    turn + k,
                    count,
                    whole + 1,
                    index,
                );
            }
        }
        assert(!admits(open, capacity, pending, (turn + k) % count, required));
    }
}

/// A unit of transmit work from a lane.
pub trait TxWork<B>: Sized {
    /// The work's buffer is consistent.
    spec fn work_wf(&self) -> bool;

    /// Index of the socket that the work's buffer came from.
    spec fn source(&self) -> u16;

    /// `tx` is a transmit item of this work.
    spec fn transmits_as(&self, tx: UdpTransmit<B>) -> bool;

    /// Returns the socket that the work's buffer came from.
    fn work_source(&self) -> (r: SocketIndex)
        ensures
            r.value() == self.source(),
    ;

    /// Converts the work into a transmit item.
    fn into_work_transmit(self) -> (r: UdpTransmit<B>)
        requires
            self.work_wf(),
        ensures
            self.transmits_as(r),
    ;
}

impl<S: UdpSocket> TxWork<UdpTxBuffer<S>> for TileTxPacket<S> {
    open spec fn work_wf(&self) -> bool {
        true
    }

    open spec fn source(&self) -> u16 {
        self.source_socket.value()
    }

    open spec fn transmits_as(&self, tx: UdpTransmit<UdpTxBuffer<S>>) -> bool {
        tx == self.transmit()
    }

    fn work_source(&self) -> SocketIndex {
        self.source_socket
    }

    fn into_work_transmit(self) -> UdpTransmit<UdpTxBuffer<S>> {
        self.into_udp_transmit()
    }
}

/// A filled transmit buffer together with where to send it.
pub struct TileTxBufferWork<S: UdpSocket> {
    /// The buffer.
    pub buffer: TileTxBuffer<S>,
    /// Addressing and offload requests.
    pub meta: TileTxMeta,
}

impl<S: UdpSocket> TxWork<UdpTxBuffer<S>> for TileTxBufferWork<S> {
    open spec fn work_wf(&self) -> bool {
        self.buffer.buffer_spec().wf()
    }

    open spec fn source(&self) -> u16 {
        self.buffer.source_spec().value()
    }

    open spec fn transmits_as(&self, tx: UdpTransmit<UdpTxBuffer<S>>) -> bool {
        &&& tx.packet.wf()
        &&& tx.packet.bytes() == self.buffer.buffer_spec().bytes()
        &&& tx.destination == self.meta.destination
        &&& tx.source_ip == self.meta.source_ip
        &&& tx.source_port == self.meta.source_port
        &&& tx.ecn == self.meta.ecn
        &&& tx.gso_segment_size == self.meta.gso_segment_size
    }

    fn work_source(&self) -> SocketIndex {
        self.buffer.source_socket()
    }

    fn into_work_transmit(self) -> UdpTransmit<UdpTxBuffer<S>> {
        let meta = self.meta;
        let mut packet = self.buffer.freeze(meta.destination);
        packet.source_ip = meta.source_ip;
        packet.source_port = meta.source_port;
        packet.ecn = meta.ecn;
        packet.gso_segment_size = meta.gso_segment_size;
        packet.into_udp_transmit()
    }
}

/// The work of a lane in order: first what was put aside, then its queue.
pub open spec fn work_list<W>(deferred: Option<W>, queued: Seq<W>) -> Seq<W> {
    match deferred {
        Some(work) => seq![work] + queued,
        None => queued,
    }
}

fn take_work<W>(deferred: &mut Option<W>, queue: &mut SpscRing<W>) -> (r: Option<W>)
    requires
        old(queue).wf(),
    ensures
        final(queue).wf(),
        final(queue).spec_capacity() == old(queue).spec_capacity(),
        *final(deferred) is None,
        r == popped(work_list(*old(deferred), old(queue)@)).0,
        final(queue)@ == popped(work_list(*old(deferred), old(queue)@)).1,
{
    match deferred.take() {
        Some(work) => {
            proof {
                assert((seq![work] + queue@).skip(1) =~= queue@);
            }
            Some(work)
        },
        None => queue.pop(),
    }
}

/// The transmit items that are assigned to socket `index`, in order.
pub open spec fn assigned<B>(
    items: Seq<UdpTransmit<B>>,
    targets: Seq<int>,
    index: int,
) -> Seq<TxSlot<UdpTransmit<B>>>
    decreases items.len(),
{
    if items.len() == 0 {
        Seq::empty()
    } else {
        let earlier = assigned(items.drop_last(), targets.drop_last(), index);
        if targets.last() == index {
            earlier.push(TxSlot::Ready(items.last()))
        } else {
            earlier
        }
    }
}

/// How many of the targets are -1.
pub open spec fn dropped_count(targets: Seq<int>) -> nat
    decreases targets.len(),
{
    if targets.len() == 0 {
        0
    } else {
        dropped_count(targets.drop_last()) + (if targets.last() == -1 {
            1nat
        } else {
            0
        })
    }
}

/// The first `targets.len()` units of `work` left the lane: the unit `i` was
/// appended to the pending packets of socket `targets[i]` as `items[i]`, or was
/// dropped and counted, exactly when its source socket does not exist.
pub open spec fn moved_work<B, W: TxWork<B>>(
    work: Seq<W>,
    left: Seq<W>,
    before: Seq<Vec<TxSlot<UdpTransmit<B>>>>,
    after: Seq<Vec<TxSlot<UdpTransmit<B>>>>,
    drops_before: u64,
    drops_after: u64,
    items: Seq<UdpTransmit<B>>,
    targets: Seq<int>,
) -> bool {
    &&& targets.len() <= work.len()
    &&& items.len() == targets.len()
    &&& left == work.skip(targets.len() as int)
    &&& after.len() == before.len()
    &&& forall|b: int|
        0 <= b < before.len() ==> (#[trigger] after[b])@ == before[b]@ + assigned(
            items,
            targets,
            b,
        )
    &&& forall|i: int|
        0 <= i < targets.len() ==> {
            &&& #[trigger] targets[i] == -1 <==> work[i].source() >= before.len()
            &&& targets[i] == -1 || 0 <= targets[i] < before.len()
            &&& targets[i] != -1 ==> work[i].transmits_as(items[i])
        }
    &&& drops_after == bumped(drops_before, dropped_count(targets))
}

/// The number of transmit items assigned to the sockets below `count`.
pub open spec fn assigned_total<B>(
    items: Seq<UdpTransmit<B>>,
    targets: Seq<int>,
    count: nat,
) -> nat
    decreases count,
{
    if count == 0 {
        0
    } else {
        assigned_total(items, targets, (count - 1) as nat) + assigned(
            items,
            targets,
            count - 1,
        ).len()
    }
}

/// Every unit of work that leaves a lane is either pending for exactly one
/// socket or counted as dropped.
pub proof fn law_no_work_is_lost<B>(items: Seq<UdpTransmit<B>>, targets: Seq<int>, count: nat)
    requires
        items.len() == targets.len(),
        forall|i: int|
            0 <= i < targets.len() ==> #[trigger] targets[i] == -1 || 0 <= targets[i] < count,
    ensures
        assigned_total(items, targets, count) + dropped_count(targets) == targets.len(),
    decreases targets.len(),
{
    if targets.len() == 0 {
        lemma_assigned_total_of_none(items, targets, count);
    } else {
        law_no_work_is_lost(items.drop_last(), targets.drop_last(), count);
        assert(targets.last() == targets[targets.len() - 1]);
        lemma_assigned_total_step(items, targets, count);
    }
}

proof fn lemma_assigned_total_of_none<B>(
    items: Seq<UdpTransmit<B>>,
    targets: Seq<int>,
    count: nat,
)
    requires
        items.len() == 0,
    ensures
        assigned_total(items, targets, count) == 0,
    decreases count,
{
    if count > 0 {
        lemma_assigned_total_of_none(items, targets, (count - 1) as nat);
    }
}

proof fn lemma_assigned_total_step<B>(items: Seq<UdpTransmit<B>>, targets: Seq<int>, count: nat)
    requires
        items.len() == targets.len(),
        items.len() > 0,
    ensures
        assigned_total(items, targets, count) == assigned_total(
            items.drop_last(),
            targets.drop_last(),
            count,
        ) + (if 0 <= targets.last() < count {
            1nat
        } else {
            0
        }),
    decreases count,
{
    if count > 0 {
        lemma_assigned_total_step(items, targets, (count - 1) as nat);
    }
}

proof fn lemma_moved_nothing<B, W: TxWork<B>>(
    work: Seq<W>,
    pending: Seq<Vec<TxSlot<UdpTransmit<B>>>>,
    drops: u64,
)
    ensures
        moved_work(
            work,
            work,
            pending,
            pending,
            drops,
            drops,
            Seq::<UdpTransmit<B>>::empty(),
            Seq::<int>::empty(),
        ),
{
    assert(work.skip(0) =~= work);
    assert forall|b: int| 0 <= b < pending.len() implies (#[trigger] pending[b])@ == pending[b]@
        + assigned(Seq::<UdpTransmit<B>>::empty(), Seq::<int>::empty(), b) by {
        assert(pending[b]@ + Seq::<TxSlot<UdpTransmit<B>>>::empty() =~= pending[b]@);
    }
    lemma_bumped_adds(drops, 0, 0);
}

/// Moving one more unit of work after `targets.len()` of them.
proof fn lemma_moved_one_more<B, W: TxWork<B>>(
    work: Seq<W>,
    before: Seq<Vec<TxSlot<UdpTransmit<B>>>>,
    middle: Seq<Vec<TxSlot<UdpTransmit<B>>>>,
    after: Seq<Vec<TxSlot<UdpTransmit<B>>>>,
    drops_before: u64,
    drops_middle: u64,
    drops_after: u64,
    items: Seq<UdpTransmit<B>>,
    targets: Seq<int>,
    item: UdpTransmit<B>,
    target: int,
)
    requires
        targets.len() < work.len(),
        moved_work(
            work,
            work.skip(targets.len() as int),
            before,
            middle,
            drops_before,
            drops_middle,
            items,
            targets,
        ),
        after.len() == middle.len(),
        target == -1 || 0 <= target < before.len(),
        target == -1 <==> work[targets.len() as int].source() >= before.len(),
        target != -1 ==> work[targets.len() as int].transmits_as(item),
        forall|b: int|
            0 <= b < middle.len() ==> (#[trigger] after[b])@ == (if b == target {
                middle[b]@.push(TxSlot::Ready(item))
            } else {
                middle[b]@
            }),
        drops_after == (if target == -1 {
            bumped(drops_middle, 1)
        } else {
            drops_middle
        }),
    ensures
        moved_work(
            work,
            work.skip(targets.len() as int + 1),
            before,
            after,
            drops_before,
            drops_after,
            items.push(item),
            targets.push(target),
        ),
{
    let items_after = items.push(item);
    let targets_after = targets.push(target);
    assert(items_after.drop_last() =~= items);
    assert(targets_after.drop_last() =~= targets);
    assert forall|b: int| 0 <= b < before.len() implies (#[trigger] after[b])@ == before[b]@
        + assigned(items_after, targets_after, b) by {
        assert(middle[b]@ == before[b]@ + assigned(items, targets, b));
        if b == target {
            assert(middle[b]@.push(TxSlot::Ready(item)) =~= before[b]@ + assigned(
                items_after,
                targets_after,
                b,
            ));
        }
    }
    assert forall|i: int| 0 <= i < targets_after.len() implies {
        &&& #[trigger] targets_after[i] == -1 <==> work[i].source() >= before.len()
        &&& targets_after[i] == -1 || 0 <= targets_after[i] < before.len()
        &&& targets_after[i] != -1 ==> work[i].transmits_as(items_after[i])
    } by {
        if i < targets.len() {
            assert(targets_after[i] == targets[i]);
            assert(items_after[i] == items[i]);
        }
    }
    lemma_bumped_adds(drops_before, dropped_count(targets), 1);
    lemma_bumped_adds(drops_before, dropped_count(targets), 0);
}

/// Moves one unit of work to the pending packets of `target`, or drops it when
/// its source socket does not exist.
fn place_work<B, W: TxWork<B>>(
    work: W,
    target: usize,
    pending: &mut Vec<Vec<TxSlot<UdpTransmit<B>>>>,
    tx_drops: &mut u64,
) -> (r: Ghost<(UdpTransmit<B>, int)>)
    requires
        work.work_wf(),
        target < old(pending)@.len(),
    ensures
        final(pending)@.len() == old(pending)@.len(),
        r@.1 == (if work.source() >= old(pending)@.len() {
            -1
        } else {
            target as int
        }),
        r@.1 != -1 ==> work.transmits_as(r@.0),
        forall|b: int|
            0 <= b < old(pending)@.len() ==> (#[trigger] final(pending)@[b])@ == (if b == r@.1 {
                old(pending)@[b]@.push(TxSlot::Ready(r@.0))
            } else {
                old(pending)@[b]@
            }),
        *final(tx_drops) == (if r@.1 == -1 {
            bumped(*old(tx_drops), 1)
        } else {
            *old(tx_drops)
        }),
{
    let source: usize = work.work_source().get() as usize;
    if source >= pending.len() {
        bump(tx_drops, 1);
        return Ghost((arbitrary(), -1));
    }
    let item = work.into_work_transmit();
    let ghost moved = item;
    pending[target].push(TxSlot::Ready(item));
    Ghost((moved, target as int))
}

/// How many units one round of a rotation moves to the socket `target`: as many as it
/// takes, at most a batch and what is left of the work.
pub open spec fn round_length<T>(
    capacity: nat,
    batch_size: usize,
    pending: Seq<Vec<T>>,
    target: int,
    left: int,
) -> int {
    smaller(smaller(capacity - pending[target]@.len(), batch_size as int), left)
}

/// The pending packets are those of `before` and the first `count` moved units.
pub open spec fn rotation_stage<B>(
    before: Seq<Vec<TxSlot<UdpTransmit<B>>>>,
    stage: Seq<Vec<TxSlot<UdpTransmit<B>>>>,
    items: Seq<UdpTransmit<B>>,
    targets: Seq<int>,
    count: int,
) -> bool {
    &&& stage.len() == before.len()
    &&& 0 <= count <= targets.len()
    &&& items.len() == targets.len()
    &&& forall|b: int|
        0 <= b < before.len() ==> (#[trigger] stage[b])@ == before[b]@ + assigned(
            items.take(count),
            targets.take(count),
            b,
        )
}

/// The round `k` chose the next socket in turn that takes a packet, and moved the
/// units from `starts[k]` to `starts[k + 1]` to it.
pub open spec fn rotation_round<B>(
    open: Seq<bool>,
    capacity: nat,
    batch_size: usize,
    work: int,
    before: Seq<Vec<TxSlot<UdpTransmit<B>>>>,
    items: Seq<UdpTransmit<B>>,
    targets: Seq<int>,
    stages: Seq<Seq<Vec<TxSlot<UdpTransmit<B>>>>>,
    turns: Seq<usize>,
    starts: Seq<int>,
    k: int,
) -> bool {
    let chosen = round_robin(open, capacity, stages[k], 1, turns[k], stages[k].len());
    &&& rotation_stage(before, stages[k], items, targets, starts[k])
    &&& some_room(open, capacity, stages[k])
    &&& chosen.0 is Some
    &&& turns[k + 1] == chosen.1
    &&& starts[k + 1] == starts[k] + round_length(
        capacity,
        batch_size,
        stages[k],
        chosen.0->0,
        work - starts[k],
    )
    &&& starts[k] < starts[k + 1] <= targets.len()
    &&& forall|i: int|
        starts[k] <= i < starts[k + 1] ==> #[trigger] targets[i] == -1 || targets[i]
            == chosen.0->0
}

/// A rotation stops when no open socket has room, when the round robin finds no
/// socket, or when it found one and no work is left for it.
pub open spec fn rotation_stops<T>(
    open: Seq<bool>,
    capacity: nat,
    pending: Seq<Vec<T>>,
    turn: usize,
    turn_after: usize,
    left: int,
) -> bool {
    let chosen = round_robin(open, capacity, pending, 1, turn, pending.len());
    if some_room(open, capacity, pending) {
        turn_after == chosen.1 && (chosen.0 is None || left == 0)
    } else {
        turn_after == turn
    }
}

/// `targets` are the sockets that a rotation over the open sockets gives `work` units:
/// rounds that follow each other until the rotation stops.
pub open spec fn rotation<B>(
    open: Seq<bool>,
    capacity: nat,
    batch_size: usize,
    work: int,
    before: Seq<Vec<TxSlot<UdpTransmit<B>>>>,
    items: Seq<UdpTransmit<B>>,
    targets: Seq<int>,
    stages: Seq<Seq<Vec<TxSlot<UdpTransmit<B>>>>>,
    turns: Seq<usize>,
    starts: Seq<int>,
    turn_after: usize,
) -> bool {
    &&& turns.len() == stages.len()
    &&& starts.len() == stages.len()
    &&& stages.len() > 0
    &&& starts[0] == 0
    &&& starts.last() == targets.len()
    &&& rotation_stage(before, stages.last(), items, targets, targets.len() as int)
    &&& forall|k: int|
        0 <= k < stages.len() - 1 ==> #[trigger] rotation_round(
            open,
            capacity,
            batch_size,
            work,
            before,
            items,
            targets,
            stages,
            turns,
            starts,
            k,
        )
    &&& rotation_stops(
        open,
        capacity,
        stages.last(),
        turns.last(),
        turn_after,
        work - targets.len(),
    )
}

/// `targets` are the sockets that a rotation from `turn` on gives `work` units.
pub open spec fn rotated<B>(
    open: Seq<bool>,
    capacity: nat,
    batch_size: usize,
    work: int,
    before: Seq<Vec<TxSlot<UdpTransmit<B>>>>,
    items: Seq<UdpTransmit<B>>,
    targets: Seq<int>,
    turn: usize,
    turn_after: usize,
) -> bool {
    exists|
        stages: Seq<Seq<Vec<TxSlot<UdpTransmit<B>>>>>,
        turns: Seq<usize>,
        starts: Seq<int>,
    |
        {
            &&& #[trigger] rotation(
                open,
                capacity,
                batch_size,
                work,
                before,
                items,
                targets,
                stages,
                turns,
                starts,
                turn_after,
            )
            &&& turns[0] == turn
        }
}

/// Earlier rounds of a rotation stay as they are while more units are moved.
proof fn lemma_rounds_stay<B>(
    open: Seq<bool>,
    capacity: nat,
    batch_size: usize,
    work: int,
    before: Seq<Vec<TxSlot<UdpTransmit<B>>>>,
    items: Seq<UdpTransmit<B>>,
    targets: Seq<int>,
    more_items: Seq<UdpTransmit<B>>,
    more_targets: Seq<int>,
    stages: Seq<Seq<Vec<TxSlot<UdpTransmit<B>>>>>,
    turns: Seq<usize>,
    starts: Seq<int>,
    more_stages: Seq<Seq<Vec<TxSlot<UdpTransmit<B>>>>>,
    more_turns: Seq<usize>,
    more_starts: Seq<int>,
    k: int,
)
    requires
        rotation_round(
            open,
            capacity,
            batch_size,
            work,
            before,
            items,
            targets,
            stages,
            turns,
            starts,
            k,
        ),
        0 <= k < stages.len() - 1,
        turns.len() == stages.len(),
        starts.len() == stages.len(),
        items.is_prefix_of(more_items),
        targets.is_prefix_of(more_targets),
        stages.is_prefix_of(more_stages),
        turns.is_prefix_of(more_turns),
        starts.is_prefix_of(more_starts),
        more_items.len() == more_targets.len(),
    ensures
        rotation_round(
            open,
            capacity,
            batch_size,
            work,
            before,
            more_items,
            more_targets,
            more_stages,
            more_turns,
            more_starts,
            k,
        ),
{
    assert(more_stages[k] == stages[k]);
    assert(more_turns[k] == turns[k]);
    assert(more_turns[k + 1] == turns[k + 1]);
    assert(more_starts[k] == starts[k]);
    assert(more_starts[k + 1] == starts[k + 1]);
    assert(more_items.take(starts[k]) =~= items.take(starts[k]));
    assert(more_targets.take(starts[k]) =~= targets.take(starts[k]));
    assert forall|i: int| starts[k] <= i < starts[k + 1] implies #[trigger] more_targets[i]
        == targets[i] by {}
}

/// Moves work of one lane to any open socket, a run of packets per socket in
/// round-robin order, until the work or the room runs out.
pub fn drain_retargetable_tx_queue<B, W: TxWork<B>>(
    queue: &mut SpscRing<W>,
    deferred: &mut Option<W>,
    pending: &mut Vec<Vec<TxSlot<UdpTransmit<B>>>>,
    admission: &TxAdmission,
    batch_size: usize,
    next_tx_socket: &mut usize,
    tx_drops: &mut u64,
) -> (r: bool)
    requires
        old(queue).wf(),
        admission.wf(),
        admission@.len() == old(pending)@.len(),
        batch_size > 0,
        forall|i: int|
            0 <= i < work_list(*old(deferred), old(queue)@).len() ==> (#[trigger] work_list(
                *old(deferred),
                old(queue)@,
            )[i]).work_wf(),
    ensures
        final(queue).wf(),
        final(queue).spec_capacity() == old(queue).spec_capacity(),
        r ==> *final(deferred) is None,
        !r ==> *final(deferred) == *old(deferred) && final(queue)@ == old(queue)@,
        exists|items: Seq<UdpTransmit<B>>, targets: Seq<int>|
            {
                &&& #[trigger] moved_work(
                    work_list(*old(deferred), old(queue)@),
                    work_list(*final(deferred), final(queue)@),
                    old(pending)@,
                    final(pending)@,
                    *old(tx_drops),
                    *final(tx_drops),
                    items,
                    targets,
                )
                &&& r == (targets.len() > 0)
                &&& forall|i: int|
                    0 <= i < targets.len() && #[trigger] targets[i] != -1
                        ==> admission@[targets[i]]
                &&& rotated(
                    admission@,
                    admission.limit(),
                    batch_size,
                    work_list(*old(deferred), old(queue)@).len() as int,
                    old(pending)@,
                    items,
                    targets,
                    *old(next_tx_socket),
                    *final(next_tx_socket),
                )
            },
        forall|b: int|
            0 <= b < final(pending)@.len() && old(pending)@[b]@.len() <= admission.limit() ==> (
            #[trigger] final(pending)@[b])@.len() <= admission.limit(),
        *old(next_tx_socket) + work_list(*old(deferred), old(queue)@).len() * old(pending)@.len()
            + old(pending)@.len() <= usize::MAX ==> {
            &&& !some_room(admission@, admission.limit(), final(pending)@) || work_list(
                *final(deferred),
                final(queue)@,
            ).len() == 0
            &&& *final(next_tx_socket) <= *old(next_tx_socket) + (work_list(
                *old(deferred),
                old(queue)@,
            ).len() - work_list(*final(deferred), final(queue)@).len()) * old(pending)@.len()
                + old(pending)@.len()
        },
{
    let ghost work = work_list(*deferred, queue@);
    let ghost first_turn = *next_tx_socket;
    let ghost mut items: Seq<UdpTransmit<B>> = Seq::empty();
    let ghost mut targets: Seq<int> = Seq::empty();
    let ghost mut rounds: nat = 0;
    let ghost mut stages: Seq<Seq<Vec<TxSlot<UdpTransmit<B>>>>> = seq![pending@];
    let ghost mut turns: Seq<usize> = seq![first_turn];
    let ghost mut starts: Seq<int> = seq![0int];
    let mut progressed = false;
    proof {
        lemma_moved_nothing(work, pending@, *tx_drops);
        assert(items.take(0) =~= items);
        assert(targets.take(0) =~= targets);
    }
    while admission.has_capacity(pending)
        invariant_except_break
            first_turn + work.len() * pending@.len() + pending@.len() <= usize::MAX
                ==> *next_tx_socket <= first_turn + rounds * pending@.len(),
            turns.last() == *next_tx_socket,
        invariant
            stages.len() > 0,
            turns.len() == stages.len(),
            starts.len() == stages.len(),
            turns[0] == first_turn,
            starts[0] == 0,
            starts.last() == targets.len(),
            stages.last() == pending@,
            rotation_stage(old(pending)@, pending@, items, targets, targets.len() as int),
            forall|k: int|
                0 <= k < stages.len() - 1 ==> #[trigger] rotation_round(
                    admission@,
                    admission.limit(),
                    batch_size,
                    work.len() as int,
                    old(pending)@,
                    items,
                    targets,
                    stages,
                    turns,
                    starts,
                    k,
                ),
            work == work_list(*old(deferred), old(queue)@),
            queue.wf(),
            queue.spec_capacity() == old(queue).spec_capacity(),
            admission.wf(),
            admission@.len() == pending@.len(),
            pending@.len() == old(pending)@.len(),
            batch_size > 0,
            forall|i: int| 0 <= i < work.len() ==> (#[trigger] work[i]).work_wf(),
            work_list(*deferred, queue@) == work.skip(targets.len() as int),
            moved_work(
                work,
                work.skip(targets.len() as int),
                old(pending)@,
                pending@,
                *old(tx_drops),
                *tx_drops,
                items,
                targets,
            ),
            forall|i: int|
                0 <= i < targets.len() && #[trigger] targets[i] != -1 ==> admission@[targets[i]],
            progressed == (targets.len() > 0),
            progressed ==> *deferred is None,
            !progressed ==> *deferred == *old(deferred) && queue@ == old(queue)@,
            rounds <= targets.len(),
            first_turn == *old(next_tx_socket),
            forall|b: int|
                0 <= b < pending@.len() && old(pending)@[b]@.len() <= admission.limit() ==> (
                #[trigger] pending@[b])@.len() <= admission.limit(),
        ensures
            rotation_stops(
                admission@,
                admission.limit(),
                pending@,
                turns.last(),
                *next_tx_socket,
                work.len() - targets.len(),
            ),
            queue.wf(),
            queue.spec_capacity() == old(queue).spec_capacity(),
            moved_work(
                work,
                work_list(*deferred, queue@),
                old(pending)@,
                pending@,
                *old(tx_drops),
                *tx_drops,
                items,
                targets,
            ),
            forall|i: int|
                0 <= i < targets.len() && #[trigger] targets[i] != -1 ==> admission@[targets[i]],
            progressed == (targets.len() > 0),
            progressed ==> *deferred is None,
            !progressed ==> *deferred == *old(deferred) && queue@ == old(queue)@,
            forall|b: int|
                0 <= b < pending@.len() && old(pending)@[b]@.len() <= admission.limit() ==> (
                #[trigger] pending@[b])@.len() <= admission.limit(),
            first_turn + work.len() * pending@.len() + pending@.len() <= usize::MAX ==> {
                &&& !some_room(admission@, admission.limit(), pending@) || work_list(
                    *deferred,
                    queue@,
                ).len() == 0
                &&& *next_tx_socket <= first_turn + rounds * pending@.len() + pending@.len()
            },
            rounds <= targets.len(),
            pending@.len() == old(pending)@.len(),
        decreases work.len() - targets.len(),
    {
        let ghost turn = *next_tx_socket;
        let choice = choose_target_socket_with_admission(pending, admission, 1, next_tx_socket);
        let target: usize = match choice {
            Some(target) => target,
            None => {
                proof {
                    if first_turn + work.len() * pending@.len() + pending@.len() <= usize::MAX {
                        lemma_turns_fit(rounds, work.len(), pending@.len());
                        lemma_round_robin_turns(
                            admission@,
                            admission.limit(),
                            pending@,
                            1,
                            turn,
                            pending@.len(),
                        );
                        let open = choose|i: int|
                            0 <= i < pending@.len() && #[trigger] admission@[i] && pending@[i]@.len()
                                < admission.limit();
                        law_round_robin_is_complete(
                            admission@,
                            admission.limit(),
                            pending@,
                            1,
                            turn,
                            open,
                        );
                    }
                }
                break;
            },
        };
        let capacity: usize = admission.remaining_capacity(pending, target);
        let limit: usize = if capacity < batch_size {
            capacity
        } else {
            batch_size
        };
        let ghost start = targets.len();
        let ghost items_before = items;
        let ghost targets_before = targets;
        let ghost stage = pending@;
        let ghost turn_after = *next_tx_socket;
        let ghost chosen = round_robin(
            admission@,
            admission.limit(),
            stage,
            1,
            turn,
            stage.len(),
        );
        assert(chosen.1 == turn_after);
        assert(chosen.0 is Some);
        assert(chosen.0->0 == target);
        let ghost room = pending@[target as int]@.len() + capacity;
        proof {
            if first_turn + work.len() * pending@.len() + pending@.len() <= usize::MAX {
                lemma_turns_fit(rounds, work.len(), pending@.len());
                lemma_round_robin_turns(
                    admission@,
                    admission.limit(),
                    pending@,
                    1,
                    turn,
                    pending@.len(),
                );
            }
        }
        let mut placed: usize = 0;
        while placed < limit
            invariant
                placed <= limit <= capacity,
                work == work_list(*old(deferred), old(queue)@),
                queue.wf(),
                queue.spec_capacity() == old(queue).spec_capacity(),
                admission@.len() == pending@.len(),
                pending@.len() == old(pending)@.len(),
                target < pending@.len(),
                admission@[target as int],
                forall|i: int| 0 <= i < work.len() ==> (#[trigger] work[i]).work_wf(),
                targets.len() == start + placed,
                items.len() == targets.len(),
                items_before.is_prefix_of(items),
                targets_before.is_prefix_of(targets),
                start == targets_before.len(),
                placed == 0 ==> pending@ == stage,
                forall|i: int|
                    start <= i < targets.len() ==> #[trigger] targets[i] == -1 || targets[i]
                        == target,
                work_list(*deferred, queue@) == work.skip(targets.len() as int),
                moved_work(
                    work,
                    work.skip(targets.len() as int),
                    old(pending)@,
                    pending@,
                    *old(tx_drops),
                    *tx_drops,
                    items,
                    targets,
                ),
                forall|i: int|
                    0 <= i < targets.len() && #[trigger] targets[i] != -1
                        ==> admission@[targets[i]],
                targets.len() > 0 ==> *deferred is None,
                targets.len() == 0 ==> *deferred == *old(deferred) && queue@ == old(queue)@,
                pending@[target as int]@.len() + (capacity - placed) <= room,
                room <= admission.limit(),
                forall|b: int|
                    0 <= b < pending@.len() && b != target && old(pending)@[b]@.len()
                        <= admission.limit() ==> (#[trigger] pending@[b])@.len()
                        <= admission.limit(),
            ensures
                queue.wf(),
                queue.spec_capacity() == old(queue).spec_capacity(),
                pending@.len() == old(pending)@.len(),
                targets.len() == start + placed,
                items.len() == targets.len(),
                items_before.is_prefix_of(items),
                targets_before.is_prefix_of(targets),
                start == targets_before.len(),
                placed == 0 ==> pending@ == stage,
                forall|i: int|
                    start <= i < targets.len() ==> #[trigger] targets[i] == -1 || targets[i]
                        == target,
                work_list(*deferred, queue@) == work.skip(targets.len() as int),
                moved_work(
                    work,
                    work.skip(targets.len() as int),
                    old(pending)@,
                    pending@,
                    *old(tx_drops),
                    *tx_drops,
                    items,
                    targets,
                ),
                forall|i: int|
                    0 <= i < targets.len() && #[trigger] targets[i] != -1
                        ==> admission@[targets[i]],
                targets.len() > 0 ==> *deferred is None,
                targets.len() == 0 ==> *deferred == *old(deferred) && queue@ == old(queue)@,
                pending@[target as int]@.len() <= admission.limit(),
                forall|b: int|
                    0 <= b < pending@.len() && b != target && old(pending)@[b]@.len()
                        <= admission.limit() ==> (#[trigger] pending@[b])@.len()
                        <= admission.limit(),
                placed == limit || work_list(*deferred, queue@).len() == 0,
            decreases limit - placed,
        {
            let ghost left = work_list(*deferred, queue@);
            let ghost held = *deferred;
            let taken = take_work(deferred, queue);
            match taken {
                None => {
                    break;
                },
                Some(unit) => {
                    let ghost middle = pending@;
                    let ghost drops = *tx_drops;
                    assert(unit == work[targets.len() as int]);
                    let moved = place_work(unit, target, pending, tx_drops);
                    proof {
                        lemma_moved_one_more(
                            work,
                            old(pending)@,
                            middle,
                            pending@,
                            *old(tx_drops),
                            drops,
                            *tx_drops,
                            items,
                            targets,
                            moved@.0,
                            moved@.1,
                        );
                        assert(left.skip(1) =~= work.skip(targets.len() as int + 1));
                        items = items.push(moved@.0);
                        targets = targets.push(moved@.1);
                    }
                    placed = placed + 1;
                },
            }
        }
        if placed == 0 {
            assert(items =~= items_before);
            assert(targets =~= targets_before);
            break;
        }
        proof {
            let stages_before = stages;
            let turns_before = turns;
            let starts_before = starts;
            stages = stages.push(pending@);
            turns = turns.push(*next_tx_socket);
            starts = starts.push(targets.len() as int);
            assert(items.take(targets.len() as int) =~= items);
            assert(targets.take(targets.len() as int) =~= targets);
            assert(items.take(start as int) =~= items_before);
            assert(targets.take(start as int) =~= targets_before);
            assert(items_before.take(start as int) =~= items_before);
            assert(targets_before.take(start as int) =~= targets_before);
            assert forall|k: int|
                0 <= k < stages.len() - 1 implies #[trigger] rotation_round(
                admission@,
                admission.limit(),
                batch_size,
                work.len() as int,
                old(pending)@,
                items,
                targets,
                stages,
                turns,
                starts,
                k,
            ) by {
                if k < stages_before.len() - 1 {
                    lemma_rounds_stay(
                        admission@,
                        admission.limit(),
                        batch_size,
                        work.len() as int,
                        old(pending)@,
                        items_before,
                        targets_before,
                        items,
                        targets,
                        stages_before,
                        turns_before,
                        starts_before,
                        stages,
                        turns,
                        starts,
                        k,
                    );
                } else {
                    assert(stages[k] == stage);
                    assert(turns[k] == turn);
                    assert(starts[k] == start);
                    assert(turns[k + 1] == turn_after);
                    assert(rotation_stage(
                        old(pending)@,
                        stages[k],
                        items,
                        targets,
                        start as int,
                    ));
                }
            }
            rounds = rounds + 1;
            assert(rounds * pending@.len() == (rounds - 1) * pending@.len() + pending@.len())
                by (nonlinear_arith);
        }
        progressed = true;
    }
    proof {
        lemma_turns_fit(rounds, targets.len(), pending@.len());
        assert(rotation(
            admission@,
            admission.limit(),
            batch_size,
            work.len() as int,
            old(pending)@,
            items,
            targets,
            stages,
            turns,
            starts,
            *next_tx_socket,
        ));
    }
    progressed
}

proof fn lemma_turns_fit(rounds: nat, work: nat, count: nat)
    requires
        rounds <= work,
    ensures
        rounds * count <= work * count,
{
    assert(rounds * count <= work * count) by (nonlinear_arith)
        requires
            rounds <= work,
    ;
}

proof fn lemma_round_robin_turns<T>(
    open: Seq<bool>,
    capacity: nat,
    pending: Seq<Vec<T>>,
    required: nat,
    turn: usize,
    left: nat,
)
    requires
        turn + left <= usize::MAX,
    ensures
        round_robin(open, capacity, pending, required, turn, left).1 <= turn + left,
    decreases left,
{
    if left > 0 && !admits(open, capacity, pending, turn as int % pending.len() as int, required) {
        lemma_round_robin_turns(
            open,
            capacity,
            pending,
            required,
            next_turn(turn),
            (left - 1) as nat,
        );
    }
}

/// No more of a lane's work can be moved: there is none, or no open socket has
/// room, or the socket of its first unit takes no more.
pub open spec fn lane_stuck<B, W: TxWork<B>>(
    left: Seq<W>,
    open: Seq<bool>,
    capacity: nat,
    pending: Seq<Vec<TxSlot<UdpTransmit<B>>>>,
) -> bool {
    ||| !some_room(open, capacity, pending)
    ||| left.len() == 0
    ||| left[0].source() < pending.len() && !admits(
        open,
        capacity,
        pending,
        left[0].source() as int,
        1,
    )
}

/// A lane that is stuck stays stuck while sockets only get more packets pending.
pub proof fn lemma_lane_stays_stuck<B, W: TxWork<B>>(
    left: Seq<W>,
    open: Seq<bool>,
    capacity: nat,
    pending: Seq<Vec<TxSlot<UdpTransmit<B>>>>,
    longer: Seq<Vec<TxSlot<UdpTransmit<B>>>>,
)
    requires
        lane_stuck(left, open, capacity, pending),
        longer.len() == pending.len(),
        forall|b: int|
            0 <= b < pending.len() ==> pending[b]@.len() <= (#[trigger] longer[b])@.len(),
    ensures
        lane_stuck(left, open, capacity, longer),
{
    if some_room(open, capacity, longer) {
        let room = choose|i: int|
            0 <= i < longer.len() && #[trigger] open[i] && longer[i]@.len() < capacity;
        assert(pending[room]@.len() <= longer[room]@.len());
        assert(open[room] && pending[room]@.len() < capacity);
        assert(some_room(open, capacity, pending));
    }
}

/// Moves work of one lane to the sockets that its buffers came from, until the
/// work or the room runs out or the first unit's socket takes no more.
pub fn drain_source_local_tx_queue<B, W: TxWork<B>>(
    queue: &mut SpscRing<W>,
    deferred: &mut Option<W>,
    pending: &mut Vec<Vec<TxSlot<UdpTransmit<B>>>>,
    admission: &TxAdmission,
    tx_drops: &mut u64,
) -> (r: bool)
    requires
        old(queue).wf(),
        admission.wf(),
        admission@.len() == old(pending)@.len(),
        forall|i: int|
            0 <= i < work_list(*old(deferred), old(queue)@).len() ==> (#[trigger] work_list(
                *old(deferred),
                old(queue)@,
            )[i]).work_wf(),
    ensures
        final(queue).wf(),
        final(queue).spec_capacity() == old(queue).spec_capacity(),
        exists|items: Seq<UdpTransmit<B>>, targets: Seq<int>|
            {
                &&& #[trigger] moved_work(
                    work_list(*old(deferred), old(queue)@),
                    work_list(*final(deferred), final(queue)@),
                    old(pending)@,
                    final(pending)@,
                    *old(tx_drops),
                    *final(tx_drops),
                    items,
                    targets,
                )
                &&& r == (targets.len() > 0)
                &&& forall|i: int|
                    0 <= i < targets.len() && #[trigger] targets[i] != -1 ==> admission@[targets[i]]
                        && targets[i] == work_list(*old(deferred), old(queue)@)[i].source()
            },
        forall|b: int|
            0 <= b < final(pending)@.len() && old(pending)@[b]@.len() <= admission.limit() ==> (
            #[trigger] final(pending)@[b])@.len() <= admission.limit(),
        lane_stuck(
            work_list(*final(deferred), final(queue)@),
            admission@,
            admission.limit(),
            final(pending)@,
        ),
{
    let ghost work = work_list(*deferred, queue@);
    let ghost mut items: Seq<UdpTransmit<B>> = Seq::empty();
    let ghost mut targets: Seq<int> = Seq::empty();
    let mut progressed = false;
    proof {
        lemma_moved_nothing(work, pending@, *tx_drops);
    }
    while admission.has_capacity(pending)
        invariant
            work == work_list(*old(deferred), old(queue)@),
            queue.wf(),
            queue.spec_capacity() == old(queue).spec_capacity(),
            admission.wf(),
            admission@.len() == pending@.len(),
            pending@.len() == old(pending)@.len(),
            forall|i: int| 0 <= i < work.len() ==> (#[trigger] work[i]).work_wf(),
            work_list(*deferred, queue@) == work.skip(targets.len() as int),
            moved_work(
                work,
                work.skip(targets.len() as int),
                old(pending)@,
                pending@,
                *old(tx_drops),
                *tx_drops,
                items,
                targets,
            ),
            forall|i: int|
                0 <= i < targets.len() && #[trigger] targets[i] != -1 ==> admission@[targets[i]]
                    && targets[i] == work[i].source(),
            progressed == (targets.len() > 0),
            forall|b: int|
                0 <= b < pending@.len() && old(pending)@[b]@.len() <= admission.limit() ==> (
                #[trigger] pending@[b])@.len() <= admission.limit(),
        ensures
            queue.wf(),
            queue.spec_capacity() == old(queue).spec_capacity(),
            moved_work(
                work,
                work_list(*deferred, queue@),
                old(pending)@,
                pending@,
                *old(tx_drops),
                *tx_drops,
                items,
                targets,
            ),
            forall|i: int|
                0 <= i < targets.len() && #[trigger] targets[i] != -1 ==> admission@[targets[i]]
                    && targets[i] == work[i].source(),
            progressed == (targets.len() > 0),
            forall|b: int|
                0 <= b < pending@.len() && old(pending)@[b]@.len() <= admission.limit() ==> (
                #[trigger] pending@[b])@.len() <= admission.limit(),
            lane_stuck(
                work_list(*deferred, queue@),
                admission@,
                admission.limit(),
                pending@,
            ),
        decreases work.len() - targets.len(),
    {
        let ghost left = work_list(*deferred, queue@);
        let taken = take_work(deferred, queue);
        match taken {
            None => {
                break;
            },
            Some(unit) => {
                assert(unit == work[targets.len() as int]);
                let index: usize = unit.work_source().get() as usize;
                if index < pending.len() && !admission.can_admit(pending, index, 1) {
                    *deferred = Some(unit);
                    proof {
                        assert(seq![unit] + left.skip(1) =~= left);
                    }
                    break;
                }
                let ghost middle = pending@;
                let ghost drops = *tx_drops;
                let target: usize = if index < pending.len() {
                    index
                } else {
                    0
                };
                proof {
                    let open = choose|i: int|
                        0 <= i < pending@.len() && #[trigger] admission@[i] && pending@[i]@.len()
                            < admission.limit();
                    assert(0 <= open < pending@.len());
                }
                let moved = place_work(unit, target, pending, tx_drops);
                proof {
                    lemma_moved_one_more(
                        work,
                        old(pending)@,
                        middle,
                        pending@,
                        *old(tx_drops),
                        drops,
                        *tx_drops,
                        items,
                        targets,
                        moved@.0,
                        moved@.1,
                    );
                    assert(left.skip(1) =~= work.skip(targets.len() as int + 1));
                    items = items.push(moved@.0);
                    targets = targets.push(moved@.1);
                }
                progressed = true;
            },
        }
    }
    progressed
}

/// A counter counts: it grows by what is added, and starts over at zero only behind its
/// largest value.
pub proof fn law_counters_count(counter: u64, n: nat)
    ensures
        counter + n <= u64::MAX ==> bumped(counter, n) == counter + n,
        counter + n == u64::MAX + 1 ==> bumped(counter, n) == 0,
{
}

/// The transmit work of a lane, and what may wait for a socket, is as much as the
/// configured packets, but at least a batch and at least one packet.
pub proof fn law_transmit_queues_hold_the_configured_packets(config: TileConfig, r: usize)
    requires
        call_ensures(tx_work_capacity, (config,), r),
    ensures
        r >= config.queue_capacity,
        r >= config.batch_size,
        r >= 1,
        r == config.queue_capacity || r == config.batch_size || r == 1,
{
}

/// A socket takes new packets in a pass exactly where nothing was pending for it when the
/// pass began, and then up to the limit.
pub proof fn law_sockets_are_open_until_full<T>(
    admission: &TxAdmission,
    pending: &Vec<Vec<T>>,
    index: usize,
    required: usize,
)
    ensures
        forall|started: &mut TxAdmission|
            #![trigger call_ensures(TxAdmission::reset::<T>, (started, pending), ())]
            call_ensures(TxAdmission::reset::<T>, (started, pending), ()) ==> {
                &&& final(started)@.len() == pending@.len()
                &&& final(started).limit() == started.limit()
                &&& forall|i: int|
                    0 <= i < pending@.len() ==> (#[trigger] final(started)@[i] <==> pending@[i]@.len()
                        == 0)
            },
        forall|r: bool| #[trigger]
            call_ensures(TxAdmission::has_capacity::<T>, (admission, pending), r) ==> {
                &&& r ==> exists|i: int|
                    0 <= i < pending@.len() && #[trigger] admission@[i] && pending@[i]@.len()
                        < admission.limit()
                &&& !r ==> forall|i: int|
                    0 <= i < pending@.len() && #[trigger] admission@[i] ==> pending@[i]@.len()
                        >= admission.limit()
            },
        forall|r: bool| #[trigger]
            call_ensures(
                TxAdmission::can_admit::<T>,
                (admission, pending, index, required),
                r,
            ) ==> {
                &&& r ==> admission@[index as int]
                &&& pending@[index as int]@.len() == 0 ==> r == admission@[index as int]
                &&& r && pending@[index as int]@.len() > 0 ==> pending@[index as int]@.len()
                    + required <= admission.limit()
                &&& !r && admission@[index as int] ==> pending@[index as int]@.len() + required
                    > admission.limit()
            },
        forall|r: usize| #[trigger]
            call_ensures(TxAdmission::remaining_capacity::<T>, (admission, pending, index), r)
                ==> {
                &&& !admission@[index as int] ==> r == 0
                &&& admission@[index as int] && pending@[index as int]@.len() <= admission.limit()
                    ==> pending@[index as int]@.len() + r == admission.limit()
                &&& pending@[index as int]@.len() > admission.limit() ==> r == 0
            },
{
}

proof fn lemma_round_robin_is_first<T>(
    open: Seq<bool>,
    capacity: nat,
    pending: Seq<Vec<T>>,
    required: nat,
    turn: usize,
    left: nat,
)
    requires
        turn + left <= usize::MAX,
        pending.len() > 0,
    ensures
        ({
            let (chosen, next) = round_robin(open, capacity, pending, required, turn, left);
            let steps = next - turn;
            &&& 0 <= steps <= left
            &&& chosen is None ==> steps == left && forall|j: int|
                0 <= j < left ==> !admits(
                    open,
                    capacity,
                    pending,
                    #[trigger] ((turn + j) % pending.len() as int),
                    required,
                )
            &&& chosen matches Some(index) ==> {
                &&& steps >= 1
                &&& index == (turn + steps - 1) % pending.len() as int
                &&& admits(open, capacity, pending, index, required)
                &&& forall|j: int|
                    0 <= j < steps - 1 ==> !admits(
                        open,
                        capacity,
                        pending,
                        #[trigger] ((turn + j) % pending.len() as int),
                        required,
                    )
            }
        }),
    decreases left,
{
    if left > 0 {
        let index = turn as int % pending.len() as int;
        if !admits(open, capacity, pending, index, required) {
            let later = next_turn(turn);
            lemma_round_robin_is_first(
                open,
                capacity,
                pending,
                required,
                later,
                (left - 1) as nat,
            );
            let (chosen, next) = round_robin(open, capacity, pending, required, turn, left);
            assert forall|j: int|
                0 <= j < (if chosen is None {
                    left as int
                } else {
                    next - turn - 1
                }) implies !admits(
                open,
                capacity,
                pending,
                #[trigger] ((turn + j) % pending.len() as int),
                required,
            ) by {
                if j > 0 {
                    let k = j - 1;
                    assert(!admits(
                        open,
                        capacity,
                        pending,
                        (later + k) % pending.len() as int,
                        required,
                    ));
                }
            }
        }
    }
}

/// A packet that may go to any socket goes to the next one in turn that takes it. The
/// turn moves on behind it. Only where no socket takes it, it goes nowhere.
pub proof fn law_sockets_take_turns<T>(
    pending: &Vec<Vec<T>>,
    admission: &TxAdmission,
    required: usize,
    r: Option<usize>,
)
    requires
        pending@.len() > 0,
    ensures
        forall|turn: &mut usize| #[trigger]
            call_ensures(
                choose_target_socket_with_admission::<T>,
                (pending, admission, required, turn),
                r,
            ) && *turn + pending@.len() <= usize::MAX ==> {
                let takes = |i: int|
                    admission@[i] && (pending@[i]@.len() == 0 || pending@[i]@.len() + required
                        <= admission.limit());
                let steps = *final(turn) - *turn;
                let asked = if r is Some {
                    steps - 1
                } else {
                    steps
                };
                &&& r matches Some(index) ==> {
                    &&& steps >= 1
                    &&& index == (*turn + steps - 1) % pending@.len() as int
                    &&& takes(index as int)
                }
                &&& r is None ==> steps == pending@.len()
                &&& forall|j: int|
                    0 <= j < asked ==> !takes(#[trigger] ((*turn + j) % pending@.len() as int))
            },
{
    assert forall|turn: &mut usize| #[trigger]
        call_ensures(
            choose_target_socket_with_admission::<T>,
            (pending, admission, required, turn),
            r,
        ) && *turn + pending@.len() <= usize::MAX implies {
        let takes = |i: int|
            admission@[i] && (pending@[i]@.len() == 0 || pending@[i]@.len() + required
                <= admission.limit());
        let steps = *final(turn) - *turn;
        let asked = if r is Some {
            steps - 1
        } else {
            steps
        };
        &&& r matches Some(index) ==> {
            &&& steps >= 1
            &&& index == (*turn + steps - 1) % pending@.len() as int
            &&& takes(index as int)
        }
        &&& r is None ==> steps == pending@.len()
        &&& forall|j: int|
            0 <= j < asked ==> !takes(#[trigger] ((*turn + j) % pending@.len() as int))
    } by {
        lemma_round_robin_is_first(
            admission@,
            admission.limit(),
            pending@,
            required as nat,
            *turn,
            pending@.len(),
        );
        let steps = *final(turn) - *turn;
        let asked = if r is Some {
            steps - 1
        } else {
            steps
        };
        let takes = |i: int|
            admission@[i] && (pending@[i]@.len() == 0 || pending@[i]@.len() + required
                <= admission.limit());
        assert forall|j: int| 0 <= j < asked implies !takes(
            #[trigger] ((*turn + j) % pending@.len() as int),
        ) by {
            assert(!admits(
                admission@,
                admission.limit(),
                pending@,
                (*turn + j) % pending@.len() as int,
                required as nat,
            ));
        }
    }
}

/// Work that is sent keeps everything: the payload, the destination and all that was asked
/// for.
pub proof fn law_work_is_sent_as_it_was_queued<S: UdpSocket>(
    packet: TileTxPacket<S>,
    work: TileTxBufferWork<S>,
    tx: UdpTransmit<UdpTxBuffer<S>>,
)
    ensures
        call_ensures(
            <TileTxPacket<S> as TxWork<UdpTxBuffer<S>>>::into_work_transmit,
            (packet,),
            tx,
        ) ==> {
            &&& tx.packet == packet.packet
            &&& tx.destination == packet.destination
            &&& tx.source_ip == packet.source_ip
            &&& tx.source_port == packet.source_port
            &&& tx.ecn == packet.ecn
            &&& tx.gso_segment_size == packet.gso_segment_size
        },
        call_ensures(
            <TileTxBufferWork<S> as TxWork<UdpTxBuffer<S>>>::into_work_transmit,
            (work,),
            tx,
        ) ==> {
            &&& tx.packet.bytes() == work.buffer.buffer_spec().bytes()
            &&& tx.destination == work.meta.destination
            &&& tx.source_ip == work.meta.source_ip
            &&& tx.source_port == work.meta.source_port
            &&& tx.ecn == work.meta.ecn
            &&& tx.gso_segment_size == work.meta.gso_segment_size
        },
        <TileTxPacket<S> as TxWork<UdpTxBuffer<S>>>::source(&packet)
            == packet.source_socket.value(),
        <TileTxBufferWork<S> as TxWork<UdpTxBuffer<S>>>::source(&work)
            == work.buffer.source_spec().value(),
{
}

/// What a socket is assigned are the packets sent to it, in order: one more packet is
/// assigned last to its own socket and changes nothing for the others.
pub proof fn law_assigned_packets_stay_in_order<B>(
    items: Seq<UdpTransmit<B>>,
    targets: Seq<int>,
    index: int,
    item: UdpTransmit<B>,
    target: int,
)
    ensures
        assigned(Seq::<UdpTransmit<B>>::empty(), Seq::<int>::empty(), index).len() == 0,
        target == index ==> assigned(items.push(item), targets.push(target), index) == assigned(
            items,
            targets,
            index,
        ).push(TxSlot::Ready(item)),
        target != index ==> assigned(items.push(item), targets.push(target), index) == assigned(
            items,
            targets,
            index,
        ),
        dropped_count(targets.push(target)) == dropped_count(targets) + (if target == -1 {
            1int
        } else {
            0
        }),
        dropped_count(Seq::<int>::empty()) == 0,
{
    assert(items.push(item).drop_last() =~= items);
    assert(targets.push(target).drop_last() =~= targets);
}

/// Work that has to leave through the socket of its buffer does: packet by packet, in
/// order, each to its own socket, and only a packet of a socket that does not exist is
/// dropped. What does not leave stays in order.
pub proof fn law_source_local_work_leaves_through_its_socket<B, W: TxWork<B>>(
    admission: &TxAdmission,
    r: bool,
)
    ensures
        forall|
            queue: &mut SpscRing<W>,
            deferred: &mut Option<W>,
            pending: &mut Vec<Vec<TxSlot<UdpTransmit<B>>>>,
            drops: &mut u64,
        | #[trigger]
            call_ensures(
                drain_source_local_tx_queue::<B, W>,
                (queue, deferred, pending, admission, drops),
                r,
            ) && *deferred is None && *final(deferred) is None ==> exists|
                items: Seq<UdpTransmit<B>>,
                targets: Seq<int>,
            |
                #![trigger items.len(), dropped_count(targets)]
                {
                    &&& items.len() == targets.len() <= queue@.len()
                    &&& final(queue)@ == queue@.skip(targets.len() as int)
                    &&& r <==> targets.len() > 0
                    &&& forall|i: int|
                        0 <= i < targets.len() ==> {
                            &&& queue@[i].source() >= pending@.len() ==> #[trigger] targets[i] == -1
                            &&& queue@[i].source() < pending@.len() ==> targets[i]
                                == queue@[i].source() && admission@[targets[i]]
                                && queue@[i].transmits_as(items[i])
                        }
                    &&& forall|b: int|
                        0 <= b < pending@.len() ==> (#[trigger] final(pending)@[b])@
                            == pending@[b]@ + assigned(items, targets, b)
                    &&& *drops + dropped_count(targets) <= u64::MAX ==> *final(drops) == *drops
                        + dropped_count(targets)
                },
{
    assert forall|
        queue: &mut SpscRing<W>,
        deferred: &mut Option<W>,
        pending: &mut Vec<Vec<TxSlot<UdpTransmit<B>>>>,
        drops: &mut u64,
    | #[trigger]
        call_ensures(
            drain_source_local_tx_queue::<B, W>,
            (queue, deferred, pending, admission, drops),
            r,
        ) && *deferred is None && *final(deferred) is None implies exists|
        items: Seq<UdpTransmit<B>>,
        targets: Seq<int>,
    |
        #![trigger items.len(), dropped_count(targets)]
        {
            &&& items.len() == targets.len() <= queue@.len()
            &&& final(queue)@ == queue@.skip(targets.len() as int)
            &&& r <==> targets.len() > 0
            &&& forall|i: int|
                0 <= i < targets.len() ==> {
                    &&& queue@[i].source() >= pending@.len() ==> #[trigger] targets[i] == -1
                    &&& queue@[i].source() < pending@.len() ==> targets[i] == queue@[i].source()
                        && admission@[targets[i]] && queue@[i].transmits_as(items[i])
                }
            &&& forall|b: int|
                0 <= b < pending@.len() ==> (#[trigger] final(pending)@[b])@ == pending@[b]@
                    + assigned(items, targets, b)
            &&& *drops + dropped_count(targets) <= u64::MAX ==> *final(drops) == *drops
                + dropped_count(targets)
        } by {
        let (items, targets) = choose|items: Seq<UdpTransmit<B>>, targets: Seq<int>|
            {
                &&& #[trigger] moved_work(
                    work_list(*deferred, queue@),
                    work_list(*final(deferred), final(queue)@),
                    pending@,
                    final(pending)@,
                    *drops,
                    *final(drops),
                    items,
                    targets,
                )
                &&& r == (targets.len() > 0)
                &&& forall|i: int|
                    0 <= i < targets.len() && #[trigger] targets[i] != -1 ==> admission@[targets[i]]
                        && targets[i] == work_list(*deferred, queue@)[i].source()
            };
        law_counters_count(*drops, dropped_count(targets));
        assert(items.len() == targets.len());
    }
}

/// A round of packets for one socket is as long as a batch, unless the socket has less
/// room or less is left.
pub proof fn law_rounds_are_at_most_a_batch<T>(
    capacity: nat,
    batch_size: usize,
    pending: Seq<Vec<T>>,
    target: int,
    left: int,
)
    ensures
        ({
            let length = round_length(capacity, batch_size, pending, target, left);
            let room = capacity - pending[target]@.len();
            &&& length <= batch_size && length <= room && length <= left
            &&& length == batch_size || length == room || length == left
        }),
{
}

/// A socket's turn is the count of turns modulo the sockets, and each choice is a turn.
pub proof fn law_turns_are_counted(socket_count: usize, r: usize, n: usize)
    ensures
        forall|turn: &mut usize| #[trigger]
            call_ensures(choose_next_target_socket, (socket_count, turn), r) && socket_count > 0
                && *turn < usize::MAX ==> {
                &&& r < socket_count
                &&& r == *turn % socket_count
                &&& *final(turn) == *turn + 1
            },
        forall|counter: &mut u64| #[trigger]
            call_ensures(bump, (counter, n), ()) && *counter + n <= u64::MAX ==> *final(counter)
                == *counter + n,
{
    assert forall|turn: &mut usize| #[trigger]
        call_ensures(choose_next_target_socket, (socket_count, turn), r) && socket_count > 0
            && *turn < usize::MAX implies {
        &&& r < socket_count
        &&& r == *turn % socket_count
        &&& *final(turn) == *turn + 1
    } by {
        vstd::arithmetic::div_mod::lemma_mod_bound(*turn as int, socket_count as int);
    }
}

/// Work that has to leave through its own socket stays only where no socket has room, or
/// where the socket of the first packet is closed or full.
pub proof fn law_local_work_stays_only_when_blocked<B, W: TxWork<B>>(
    admission: &TxAdmission,
    r: bool,
)
    ensures
        forall|
            queue: &mut SpscRing<W>,
            deferred: &mut Option<W>,
            pending: &mut Vec<Vec<TxSlot<UdpTransmit<B>>>>,
            drops: &mut u64,
        | #[trigger]
            call_ensures(
                drain_source_local_tx_queue::<B, W>,
                (queue, deferred, pending, admission, drops),
                r,
            ) && *final(deferred) is None && final(queue)@.len() > 0 ==> {
                let socket = final(queue)@[0].source() as int;
                ||| forall|b: int|
                    0 <= b < final(pending)@.len() && #[trigger] admission@[b]
                        ==> final(pending)@[b]@.len() >= admission.limit()
                ||| socket < final(pending)@.len() && (!admission@[socket]
                    || final(pending)@[socket]@.len() >= admission.limit())
            },
{
}

/// Work that may leave through any socket stays only where no open socket has room, as long
/// as the turns can be counted.
pub proof fn law_free_work_stays_only_without_room<B, W: TxWork<B>>(
    admission: &TxAdmission,
    batch_size: usize,
    r: bool,
)
    ensures
        forall|
            queue: &mut SpscRing<W>,
            deferred: &mut Option<W>,
            pending: &mut Vec<Vec<TxSlot<UdpTransmit<B>>>>,
            turn: &mut usize,
            drops: &mut u64,
        |
            #![trigger call_ensures(
                drain_retargetable_tx_queue::<B, W>,
                (queue, deferred, pending, admission, batch_size, turn, drops),
                r,
            )]
            call_ensures(
                drain_retargetable_tx_queue::<B, W>,
                (queue, deferred, pending, admission, batch_size, turn, drops),
                r,
            ) && *deferred is None && *turn + queue@.len() * pending@.len() + pending@.len()
                <= usize::MAX && final(queue)@.len() > 0 ==> forall|b: int|
                0 <= b < final(pending)@.len() && #[trigger] admission@[b]
                    ==> final(pending)@[b]@.len() >= admission.limit(),
        forall|
            queue: &mut SpscRing<W>,
            deferred: &mut Option<W>,
            pending: &mut Vec<Vec<TxSlot<UdpTransmit<B>>>>,
            turn: &mut usize,
            drops: &mut u64,
        |
            #![trigger call_ensures(
                drain_retargetable_tx_queue::<B, W>,
                (queue, deferred, pending, admission, batch_size, turn, drops),
                r,
            )]
            call_ensures(
                drain_retargetable_tx_queue::<B, W>,
                (queue, deferred, pending, admission, batch_size, turn, drops),
                r,
            ) && !r ==> final(queue)@ == queue@ && *final(deferred) == *deferred,
{
    assert forall|
        queue: &mut SpscRing<W>,
        deferred: &mut Option<W>,
        pending: &mut Vec<Vec<TxSlot<UdpTransmit<B>>>>,
        turn: &mut usize,
        drops: &mut u64,
    |
        #![trigger call_ensures(
            drain_retargetable_tx_queue::<B, W>,
            (queue, deferred, pending, admission, batch_size, turn, drops),
            r,
        )]
        call_ensures(
            drain_retargetable_tx_queue::<B, W>,
            (queue, deferred, pending, admission, batch_size, turn, drops),
            r,
        ) && *deferred is None && *turn + queue@.len() * pending@.len() + pending@.len()
            <= usize::MAX && final(queue)@.len() > 0 implies forall|b: int|
        0 <= b < final(pending)@.len() && #[trigger] admission@[b] ==> final(pending)@[b]@.len()
            >= admission.limit() by {
        assert(work_list(*deferred, queue@) == queue@);
        assert(work_list(*final(deferred), final(queue)@).len() > 0);
        assert(!some_room(admission@, admission.limit(), final(pending)@));
    }
}

/// Work that may leave through any socket leaves in order, each packet to an open socket,
/// and only a packet of a socket that does not exist is dropped and counted. What does not
/// leave stays in order.
pub proof fn law_free_work_leaves_in_order<B, W: TxWork<B>>(
    admission: &TxAdmission,
    batch_size: usize,
    r: bool,
)
    ensures
        forall|
            queue: &mut SpscRing<W>,
            deferred: &mut Option<W>,
            pending: &mut Vec<Vec<TxSlot<UdpTransmit<B>>>>,
            turn: &mut usize,
            drops: &mut u64,
        |
            #![trigger call_ensures(
                drain_retargetable_tx_queue::<B, W>,
                (queue, deferred, pending, admission, batch_size, turn, drops),
                r,
            )]
            call_ensures(
                drain_retargetable_tx_queue::<B, W>,
                (queue, deferred, pending, admission, batch_size, turn, drops),
                r,
            ) && *deferred is None ==> exists|items: Seq<UdpTransmit<B>>, targets: Seq<int>|
                #![trigger items.len(), dropped_count(targets)]
                {
                    &&& items.len() == targets.len() <= queue@.len()
                    &&& *final(deferred) is None
                    &&& final(queue)@ == queue@.skip(targets.len() as int)
                    &&& r <==> targets.len() > 0
                    &&& forall|i: int|
                        0 <= i < targets.len() ==> {
                            &&& queue@[i].source() >= pending@.len() ==> #[trigger] targets[i] == -1
                            &&& queue@[i].source() < pending@.len() ==> 0 <= targets[i]
                                < pending@.len() && admission@[targets[i]]
                                && queue@[i].transmits_as(items[i])
                        }
                    &&& forall|b: int|
                        0 <= b < pending@.len() ==> (#[trigger] final(pending)@[b])@
                            == pending@[b]@ + assigned(items, targets, b)
                    &&& *drops + dropped_count(targets) <= u64::MAX ==> *final(drops) == *drops
                        + dropped_count(targets)
                },
{
    assert forall|
        queue: &mut SpscRing<W>,
        deferred: &mut Option<W>,
        pending: &mut Vec<Vec<TxSlot<UdpTransmit<B>>>>,
        turn: &mut usize,
        drops: &mut u64,
    |
        #![trigger call_ensures(
            drain_retargetable_tx_queue::<B, W>,
            (queue, deferred, pending, admission, batch_size, turn, drops),
            r,
        )]
        call_ensures(
            drain_retargetable_tx_queue::<B, W>,
            (queue, deferred, pending, admission, batch_size, turn, drops),
            r,
        ) && *deferred is None implies exists|items: Seq<UdpTransmit<B>>, targets: Seq<int>|
        #![trigger items.len(), dropped_count(targets)]
        {
            &&& items.len() == targets.len() <= queue@.len()
            &&& *final(deferred) is None
            &&& final(queue)@ == queue@.skip(targets.len() as int)
            &&& r <==> targets.len() > 0
            &&& forall|i: int|
                0 <= i < targets.len() ==> {
                    &&& queue@[i].source() >= pending@.len() ==> #[trigger] targets[i] == -1
                    &&& queue@[i].source() < pending@.len() ==> 0 <= targets[i] < pending@.len()
                        && admission@[targets[i]] && queue@[i].transmits_as(items[i])
                }
            &&& forall|b: int|
                0 <= b < pending@.len() ==> (#[trigger] final(pending)@[b])@ == pending@[b]@
                    + assigned(items, targets, b)
            &&& *drops + dropped_count(targets) <= u64::MAX ==> *final(drops) == *drops
                + dropped_count(targets)
        } by {
        let (items, targets) = choose|items: Seq<UdpTransmit<B>>, targets: Seq<int>|
            {
                &&& #[trigger] moved_work(
                    work_list(*deferred, queue@),
                    work_list(*final(deferred), final(queue)@),
                    pending@,
                    final(pending)@,
                    *drops,
                    *final(drops),
                    items,
                    targets,
                )
                &&& r == (targets.len() > 0)
                &&& forall|i: int|
                    0 <= i < targets.len() && #[trigger] targets[i] != -1 ==> admission@[targets[i]]
            };
        assert(*final(deferred) is None);
        law_counters_count(*drops, dropped_count(targets));
        assert(items.len() == targets.len());
    }
}

/// A new admission is for the sockets that it was made for, none of them open, and its
/// limit is that of the transmit queues.
pub proof fn law_new_admissions_are_closed(
    socket_count: usize,
    config: TileConfig,
    r: TxAdmission,
    limit: usize,
)
    requires
        call_ensures(TxAdmission::new, (socket_count, config), r),
        call_ensures(tx_work_capacity, (config,), limit),
    ensures
        r.limit() == limit,
        r@.len() == socket_count,
        forall|i: int| 0 <= i < socket_count ==> !#[trigger] r@[i],
{
}

} // verus!
