//! Sending sequenced packets, and counting or answering received ones.

use vstd::prelude::*;

use crate::batch::{Notification, RecvBatch, SendError, TxSlot};
use crate::bench::{law_sequence_round_trip, with_sequence, write_sequence, RunLimit};
use crate::buffer::{BufferAccessError, PacketBuffer, PacketBufferMut};
use crate::error::Error;
use crate::ip_packet::{
    IpPacketReceive, IpPacketRxItem, IpPacketSocket, IpPacketTransmit, IpPacketTxBuffer,
    IpPacketTxItem,
};
use crate::ipv4::{
    header_fields, is_ipv4_udp, parse_ipv4_udp, reflect_ipv4_udp, reflected, Ipv4UdpPacket,
};
use crate::net::{Ipv4Addr, SocketAddr};
use crate::ring::reversed;
use crate::tile_tx::{bump, bumped, law_counters_count, lemma_bumped_adds};
use crate::time::TimeSpan;
use crate::udp::{UdpReceive, UdpRecvMeta, UdpSocket, UdpTransmit, UdpTxBuffer, UdpTxBufferMut};

verus! {

/// Packets per batch of a sender at full speed.
pub const BLAST_BATCH_SIZE: usize = 128;

/// Completed packets that a worker collects before it publishes them.
pub const BLAST_COUNTER_FLUSH_PACKETS: u64 = 128;

/// The sequence number `steps` after `first`, wrapping at the end of the range.
pub open spec fn sequence_after(first: u64, steps: int) -> u64 {
    ((first + steps) % 0x1_0000_0000_0000_0000) as u64
}

/// `slot` sends `bytes` to `destination` without further requests.
pub open spec fn sends_bytes<B: PacketBuffer>(
    slot: TxSlot<UdpTransmit<B>>,
    bytes: Seq<u8>,
    destination: SocketAddr,
) -> bool {
    &&& slot matches TxSlot::Ready(tx)
    &&& tx.packet.wf()
    &&& tx.packet.bytes() == bytes
    &&& tx.destination == destination
    &&& tx.source_ip is None
    &&& tx.source_port is None
    &&& tx.ecn is None
    &&& tx.gso_segment_size is None
}

/// The slots send `payload` with consecutive sequence numbers.
pub open spec fn is_sequenced_batch<B: PacketBuffer>(
    slots: Seq<TxSlot<UdpTransmit<B>>>,
    payload: Seq<u8>,
    first: u64,
    destination: SocketAddr,
) -> bool {
    forall|k: int|
        0 <= k < slots.len() ==> sends_bytes(
            #[trigger] slots[k],
            with_sequence(payload, sequence_after(first, k)),
            destination,
        )
}

/// Fills an empty buffer with `payload` under a sequence number. Fails if the buffer is
/// too small.
pub fn fill_packet<B: PacketBufferMut>(
    buffer: &mut B,
    payload: &mut Vec<u8>,
    sequence: u64,
) -> (r: Result<(), BufferAccessError>)
    requires
        old(buffer).wf(),
        old(buffer).bytes().len() == 0,
    ensures
        final(buffer).wf(),
        final(payload)@ == with_sequence(old(payload)@, sequence),
        if old(payload)@.len() <= old(buffer).tailroom_spec() {
            &&& r == Ok::<(), BufferAccessError>(())
            &&& final(buffer).bytes() == with_sequence(old(payload)@, sequence)
        } else {
            &&& final(buffer).bytes() == old(buffer).bytes()
            &&& r == Err::<(), BufferAccessError>(
                BufferAccessError::InsufficientTailroom {
                    available: old(buffer).tailroom_spec() as usize,
                    requested: old(payload)@.len() as usize,
                },
            )
        },
{
    write_sequence(payload.as_mut_slice(), sequence);
    let filled = buffer.extend_from_slice(payload.as_slice());
    proof {
        if filled is Ok {
            assert(buffer.bytes() =~= with_sequence(old(payload)@, sequence));
        }
    }
    filled
}

/// Fills `buffers` with `payload` under consecutive sequence numbers. Fails at the
/// first buffer that is too small.
#[verifier::loop_isolation(false)]
pub fn sequenced_batch<B: PacketBufferMut>(
    buffers: Vec<B>,
    payload: &mut Vec<u8>,
    sequence: &mut u64,
    destination: SocketAddr,
) -> (r: Result<Vec<TxSlot<UdpTransmit<B::Frozen>>>, BufferAccessError>)
    requires
        forall|i: int|
            0 <= i < buffers@.len() ==> (#[trigger] buffers@[i]).wf() && buffers@[i].bytes().len()
                == 0,
    ensures
        final(payload)@.len() == old(payload)@.len(),
        forall|sequence: u64|
            with_sequence(final(payload)@, sequence) == #[trigger] with_sequence(
                old(payload)@,
                sequence,
            ),
        match r {
            Ok(slots) => {
                &&& slots@.len() == buffers@.len()
                &&& is_sequenced_batch(slots@, old(payload)@, *old(sequence), destination)
                &&& *final(sequence) == sequence_after(*old(sequence), slots@.len() as int)
            },
            Err(error) => exists|k: int|
                {
                    &&& 0 <= k < buffers@.len()
                    &&& (#[trigger] buffers@[k]).tailroom_spec() < old(payload)@.len()
                    &&& forall|i: int|
                        0 <= i < k ==> (#[trigger] buffers@[i]).tailroom_spec() >= old(payload)@.len()
                    &&& *final(sequence) == sequence_after(*old(sequence), k)
                    &&& error == (BufferAccessError::InsufficientTailroom {
                        available: buffers@[k].tailroom_spec() as usize,
                        requested: old(payload)@.len() as usize,
                    })
                },
        },
{
    let ghost given = buffers@;
    let ghost original = payload@;
    let count: usize = buffers.len();
    let mut left = reversed(buffers);
    let mut slots: Vec<TxSlot<UdpTransmit<B::Frozen>>> = Vec::with_capacity(count);
    let ghost first = *sequence;
    proof {
        lemma_wrapping_steps(first, 0);
    }
    while left.len() > 0
        invariant
            count == given.len(),
            first == *old(sequence),
            forall|i: int|
                0 <= i < slots@.len() ==> (#[trigger] given[i]).tailroom_spec() >= original.len(),
            left@.len() + slots@.len() == count,
            payload@.len() == original.len(),
            original == old(payload)@,
            forall|number: u64|
                with_sequence(payload@, number) == #[trigger] with_sequence(original, number),
            forall|i: int| 0 <= i < left@.len() ==> (#[trigger] left@[i]) == given[count - 1 - i],
            forall|i: int|
                0 <= i < given.len() ==> (#[trigger] given[i]).wf() && given[i].bytes().len() == 0,
            is_sequenced_batch(slots@, original, first, destination),
            *sequence == sequence_after(first, slots@.len() as int),
        decreases left@.len(),
    {
        let ghost before = payload@;
        if let Some(buffer) = left.pop() {
            let ghost index = slots@.len() as int;
            assert(buffer == given[index]);
            let mut packet = buffer;
            let filled_packet = fill_packet(&mut packet, payload, *sequence);
            proof {
                assert forall|number: u64|
                    with_sequence(payload@, number) == #[trigger] with_sequence(
                    original,
                    number,
                ) by {
                    assert(with_sequence(payload@, number) =~= with_sequence(before, number));
                }
            }
            match filled_packet {
                Ok(_) => {},
                Err(error) => {
                    assert(given[index].tailroom_spec() < original.len());
                    return Err(error);
                },
            }
            assert(packet.bytes() == with_sequence(original, *sequence));
            let slot = TxSlot::Ready(UdpTransmit::new(packet.freeze(), destination));
            let ghost held = slots@;
            slots.push(slot);
            proof {
                assert forall|k: int| 0 <= k < slots@.len() implies sends_bytes(
                    #[trigger] slots@[k],
                    with_sequence(original, sequence_after(first, k)),
                    destination,
                ) by {
                    if k < held.len() {
                        assert(slots@[k] == held[k]);
                    }
                }
            }
            *sequence = sequence.wrapping_add(1);
            proof {
                lemma_sequence_steps(first, index);
            }
        }
    }
    Ok(slots)
}

proof fn lemma_sequence_steps(first: u64, steps: int)
    requires
        0 <= steps,
    ensures
        sequence_after(first, steps + 1) == (if sequence_after(first, steps) == u64::MAX {
            0
        } else {
            sequence_after(first, steps) + 1
        }),
{
    let modulus = 0x1_0000_0000_0000_0000int;
    let whole = (first + steps) / modulus;
    let part = (first + steps) % modulus;
    vstd::arithmetic::div_mod::lemma_fundamental_div_mod(first + steps, modulus);
    if part + 1 < modulus {
        vstd::arithmetic::div_mod::lemma_fundamental_div_mod_converse(
            first + steps + 1,
            modulus,
            whole,
            part + 1,
        );
    } else {
        vstd::arithmetic::div_mod::lemma_fundamental_div_mod_converse(
            first + steps + 1,
            modulus,
            whole + 1,
            0,
        );
    }
}

/// Why a batch could not be sent.
#[derive(Clone, Debug)]
pub enum BlastError {
    /// A socket operation failed.
    Socket(Error),
    /// A buffer is too small for the payload.
    Buffer(BufferAccessError),
    /// A send failed.
    Send(SendError),
}

/// Allocates buffers, fills them under consecutive sequence numbers and sends them,
/// then reclaims completions. Returns the packets that were accepted and those that
/// were completed. The next sequence number is that of the first packet that was not
/// accepted.
pub fn send_packet_batch<S: UdpSocket>(
    socket: &mut S,
    destination: SocketAddr,
    payload: &mut Vec<u8>,
    sequence: &mut u64,
) -> (r: Result<(usize, usize), BlastError>)
    ensures
        final(payload)@.len() == old(payload)@.len(),
        forall|number: u64|
            with_sequence(final(payload)@, number) == #[trigger] with_sequence(
                old(payload)@,
                number,
            ),
        r matches Ok((accepted, completed)) ==> {
            &&& *final(sequence) == sequence_after(*old(sequence), accepted as int)
            &&& batch_sent(
                *old(socket),
                *final(socket),
                old(payload)@,
                *old(sequence),
                destination,
                accepted,
                completed,
            )
        },
        r matches Err(error) ==> batch_failed(
            *old(socket),
            *final(socket),
            old(payload)@,
            *old(sequence),
            destination,
            error,
            *final(sequence),
        ),
{
    let ghost start = *socket;
    let ghost original = payload@;
    let ghost first = *sequence;
    let mut buffers: Vec<UdpTxBufferMut<S>> = Vec::new();
    let outcome = socket.allocate_tx_batch(&mut buffers, BLAST_BATCH_SIZE);
    assert(buffers@.skip(0) =~= buffers@);
    assert(S::may_allocate(start, *socket, BLAST_BATCH_SIZE, buffers@, outcome));
    if let Err(error) = outcome {
        return Err(BlastError::Socket(error));
    }
    let ghost allocated = *socket;
    let ghost fresh = buffers@;
    let count: usize = buffers.len();
    let mut slots = match sequenced_batch(reversed(buffers), payload, sequence, destination) {
        Ok(slots) => slots,
        Err(error) => {
            proof {
                let filled = fresh.reverse();
                let k = choose|k: int|
                    {
                        &&& 0 <= k < filled.len()
                        &&& (#[trigger] filled[k]).tailroom_spec() < original.len()
                        &&& forall|i: int|
                            0 <= i < k ==> (#[trigger] filled[i]).tailroom_spec()
                                >= original.len()
                        &&& *sequence == sequence_after(first, k)
                        &&& error == (BufferAccessError::InsufficientTailroom {
                            available: filled[k].tailroom_spec() as usize,
                            requested: original.len() as usize,
                        })
                    };
                let small = fresh.len() - 1 - k;
                assert(fresh[small] == filled[k]);
                assert forall|i: int| small < i < fresh.len() implies (
                #[trigger] fresh[i]).tailroom_spec() >= original.len() by {
                    assert(filled[fresh.len() - 1 - i] == fresh[i]);
                }
                assert(S::may_allocate(
                    start,
                    allocated,
                    BLAST_BATCH_SIZE,
                    fresh,
                    Ok::<usize, Error>(fresh.len() as usize),
                ));
            }
            return Err(BlastError::Buffer(error));
        },
    };
    let ghost offered = slots@;
    proof {
        assert(batch_offered(start, allocated, fresh, offered, original, first, destination));
        lemma_wrapping_steps(first, 0);
    }
    let accepted: usize = if count == 0 {
        0
    } else {
        match socket.send(slots.as_mut_slice()) {
            Ok(accepted) => accepted,
            Err(error) => {
                return Err(BlastError::Send(error));
            },
        }
    };
    let ghost sent = *socket;
    if accepted < count {
        *sequence = sequence.wrapping_sub((count - accepted) as u64);
    }
    proof {
        lemma_wrapping_steps(first, accepted as int);
        lemma_wrapping_steps(first, count as int);
        assert(batch_accepted(start, sent, original, first, destination, accepted));
    }
    match socket.drain_tx_completions() {
        Ok(completed) => Ok((accepted, completed)),
        Err(error) => Err(BlastError::Socket(error)),
    }
}

proof fn lemma_wrapping_steps(first: u64, steps: int)
    requires
        0 <= steps <= u64::MAX,
    ensures
        sequence_after(first, steps) == (if first + steps > u64::MAX {
            first + steps - 0x1_0000_0000_0000_0000
        } else {
            first + steps
        }),
{
    let modulus = 0x1_0000_0000_0000_0000int;
    if first + steps > u64::MAX {
        vstd::arithmetic::div_mod::lemma_fundamental_div_mod_converse(
            first + steps,
            modulus,
            1,
            first + steps - modulus,
        );
    } else {
        vstd::arithmetic::div_mod::lemma_small_mod((first + steps) as nat, modulus as nat);
    }
}

/// The socket gave `fresh` buffers when asked for a batch, and `slots` is what they
/// were filled with.
pub open spec fn batch_offered<S: UdpSocket>(
    before: S,
    after: S,
    fresh: Seq<UdpTxBufferMut<S>>,
    slots: Seq<TxSlot<UdpTransmit<UdpTxBuffer<S>>>>,
    payload: Seq<u8>,
    first: u64,
    destination: SocketAddr,
) -> bool {
    &&& S::may_allocate(
        before,
        after,
        BLAST_BATCH_SIZE,
        fresh,
        Ok::<usize, Error>(fresh.len() as usize),
    )
    &&& slots.len() == fresh.len()
    &&& is_sequenced_batch(slots, payload, first, destination)
}

/// A batch on the socket failed with `error`, and `sequence_now` is the sequence number
/// then: in the allocation, because a buffer was too small for `payload`, in the send, or
/// while completions were reclaimed.
pub open spec fn batch_failed<S: UdpSocket>(
    before: S,
    after: S,
    payload: Seq<u8>,
    first: u64,
    destination: SocketAddr,
    error: BlastError,
    sequence_now: u64,
) -> bool {
    match error {
        BlastError::Socket(error) => {
            ||| sequence_now == first && exists|fresh: Seq<UdpTxBufferMut<S>>| #[trigger]
                S::may_allocate(
                    before,
                    after,
                    BLAST_BATCH_SIZE,
                    fresh,
                    Err::<usize, Error>(error),
                )
            ||| exists|sent: S, accepted: usize|
                {
                    &&& #[trigger] batch_accepted(
                        before,
                        sent,
                        payload,
                        first,
                        destination,
                        accepted,
                    )
                    &&& S::may_reclaim(sent, after, Err::<usize, Error>(error))
                    &&& sequence_now == sequence_after(first, accepted as int)
                }
        },
        BlastError::Buffer(error) => exists|fresh: Seq<UdpTxBufferMut<S>>, k: int|
            {
                &&& #[trigger] S::may_allocate(
                    before,
                    after,
                    BLAST_BATCH_SIZE,
                    fresh,
                    Ok::<usize, Error>(fresh.len() as usize),
                )
                &&& 0 <= k < fresh.len()
                &&& (#[trigger] fresh[k]).tailroom_spec() < payload.len()
                &&& forall|i: int|
                    k < i < fresh.len() ==> (#[trigger] fresh[i]).tailroom_spec() >= payload.len()
                &&& error == (BufferAccessError::InsufficientTailroom {
                    available: fresh[k].tailroom_spec() as usize,
                    requested: payload.len() as usize,
                })
                &&& sequence_now == sequence_after(first, fresh.len() - 1 - k)
            },
        BlastError::Send(error) => exists|
            allocated: S,
            fresh: Seq<UdpTxBufferMut<S>>,
            slots: Seq<TxSlot<UdpTransmit<UdpTxBuffer<S>>>>,
        |
            {
                &&& #[trigger] batch_offered(
                    before,
                    allocated,
                    fresh,
                    slots,
                    payload,
                    first,
                    destination,
                )
                &&& fresh.len() > 0
                &&& S::may_send(allocated, after, slots, Err::<usize, SendError>(error))
                &&& sequence_now == sequence_after(first, fresh.len() as int)
            },
    }
}

/// Buffers were allocated, filled and offered, and `accepted` of them were accepted,
/// which took the socket from `before` to `sent`.
pub open spec fn batch_accepted<S: UdpSocket>(
    before: S,
    sent: S,
    payload: Seq<u8>,
    first: u64,
    destination: SocketAddr,
    accepted: usize,
) -> bool {
    exists|
        allocated: S,
        fresh: Seq<UdpTxBufferMut<S>>,
        slots: Seq<TxSlot<UdpTransmit<UdpTxBuffer<S>>>>,
    |
        {
            &&& #[trigger] batch_offered(
                before,
                allocated,
                fresh,
                slots,
                payload,
                first,
                destination,
            )
            &&& if fresh.len() == 0 {
                accepted == 0 && sent == allocated
            } else {
                S::may_send(allocated, sent, slots, Ok::<usize, SendError>(accepted))
            }
        }
}

/// One batch took the socket from `before` to `after`: buffers were allocated, filled
/// and offered, `accepted` of them were accepted, and `completed` packets reclaimed.
pub open spec fn batch_sent<S: UdpSocket>(
    before: S,
    after: S,
    payload: Seq<u8>,
    first: u64,
    destination: SocketAddr,
    accepted: usize,
    completed: usize,
) -> bool {
    exists|sent: S|
        {
            &&& #[trigger] batch_accepted(before, sent, payload, first, destination, accepted)
            &&& S::may_reclaim(sent, after, Ok::<usize, Error>(completed))
        }
}

/// Packets that a worker has in flight and has completed. The counters wrap at the end
/// of their range.
#[derive(Clone, Copy, Debug, Eq, PartialEq, Structural)]
pub struct BlastAccount {
    /// Packets accepted and not yet completed.
    pub in_flight: u64,
    /// Completed packets that are not yet published.
    pub pending_completed: u64,
    /// Completed packets that are published.
    pub published: u64,
}

/// `a` less `b`, but not below 0.
pub open spec fn less(a: u64, b: int) -> u64 {
    if a >= b {
        (a - b) as u64
    } else {
        0
    }
}

impl BlastAccount {
    /// Starts with nothing.
    #[must_use]
    pub fn new() -> (r: Self)
        ensures
            r == (BlastAccount { in_flight: 0, pending_completed: 0, published: 0 }),
    {
        BlastAccount { in_flight: 0, pending_completed: 0, published: 0 }
    }

    /// The account after completed packets were published, if there are enough of
    /// them or any and it is forced.
    pub open spec fn flushed(self, force: bool) -> Self {
        if self.pending_completed >= BLAST_COUNTER_FLUSH_PACKETS || (force
            && self.pending_completed > 0) {
            BlastAccount {
                in_flight: self.in_flight,
                pending_completed: 0,
                published: bumped(self.published, self.pending_completed as nat),
            }
        } else {
            self
        }
    }

    /// The account after a batch.
    pub open spec fn recorded(self, accepted: usize, completed: usize) -> Self {
        let in_flight = bumped(self.in_flight, accepted as nat);
        if completed > 0 {
            BlastAccount {
                in_flight: less(in_flight, completed as int),
                pending_completed: bumped(self.pending_completed, completed as nat),
                published: self.published,
            }.flushed(false)
        } else {
            BlastAccount { in_flight, ..self }
        }
    }

    /// The account after completions of a drain.
    pub open spec fn drained(self, completed: usize) -> Self {
        BlastAccount {
            in_flight: less(self.in_flight, completed as int),
            pending_completed: bumped(self.pending_completed, completed as nat),
            published: self.published,
        }
    }

    /// All completed packets.
    pub open spec fn completed(self) -> u64 {
        bumped(self.published, self.pending_completed as nat)
    }

    /// Records a batch, and publishes completed packets when there are enough.
    pub fn record(&mut self, accepted: usize, completed: usize)
        ensures
            *final(self) == old(self).recorded(accepted, completed),
    {
        bump(&mut self.in_flight, accepted);
        if completed > 0 {
            self.in_flight = self.in_flight.saturating_sub(completed as u64);
            bump(&mut self.pending_completed, completed);
            self.flush_blast_completions(false);
        }
    }

    /// Records the completions of a drain. Returns whether there were none.
    pub fn record_drain(&mut self, completed: usize) -> (r: bool)
        ensures
            *final(self) == old(self).drained(completed),
            r == (completed == 0),
    {
        self.in_flight = self.in_flight.saturating_sub(completed as u64);
        bump(&mut self.pending_completed, completed);
        completed == 0
    }

    /// Publishes the completed packets if there are enough, or if forced.
    pub fn flush_blast_completions(&mut self, force: bool)
        ensures
            *final(self) == old(self).flushed(force),
    {
        if self.pending_completed >= BLAST_COUNTER_FLUSH_PACKETS || (force
            && self.pending_completed > 0) {
            self.published = self.published.wrapping_add(self.pending_completed);
            self.pending_completed = 0;
        }
    }

    /// Returns whether to wait for more completions at time `now`: packets are in
    /// flight and the deadline has not passed.
    #[must_use]
    pub fn keeps_draining(&self, now: TimeSpan, deadline: TimeSpan) -> (r: bool)
        requires
            now.wf(),
            deadline.wf(),
        ensures
            r == (self.in_flight > 0 && now@ < deadline@),
    {
        self.in_flight > 0 && now.is_shorter_than(&deadline)
    }
}

/// No completed packet is lost between being completed and being published.
pub proof fn law_completions_are_kept(
    account: BlastAccount,
    accepted: usize,
    completed: usize,
    force: bool,
)
    ensures
        account.recorded(accepted, completed).completed() == bumped(
            account.completed(),
            completed as nat,
        ),
        account.drained(completed).completed() == bumped(account.completed(), completed as nat),
        account.flushed(force).completed() == account.completed(),
        account.flushed(true).pending_completed == 0,
        account.flushed(true).published == account.completed(),
{
    let more = bumped(account.pending_completed, completed as nat);
    let modulus = 0x1_0000_0000_0000_0000int;
    lemma_bumped_adds(account.published, account.pending_completed as nat, completed as nat);
    lemma_bumped_adds(account.published, 0, 0);
    lemma_bumped_adds(account.completed(), 0, 0);
    lemma_bumped_adds(account.pending_completed, 0, 0);
    lemma_bumped_adds(bumped(account.published, more as nat), 0, 0);
    assert(bumped(account.published, more as nat) == bumped(
        account.completed(),
        completed as nat,
    )) by {
        vstd::arithmetic::div_mod::lemma_add_mod_noop_right(
            account.published as int,
            account.pending_completed + completed as int,
            modulus,
        );
    }
}

/// A worker that sends sequenced packets over several sockets in turn.
#[derive(Clone, Copy, Debug, Eq, PartialEq, Structural)]
pub struct BlastWorker {
    /// The socket of the next batch.
    pub next_socket: usize,
    /// The sequence number of the next packet.
    pub sequence: u64,
    /// What was sent and completed.
    pub account: BlastAccount,
    /// Passes so far, wrapping at the end of the range.
    pub passes: u32,
}

/// Passes between two looks for a shutdown request.
pub const SHUTDOWN_CHECK_PASSES: u32 = 256;

impl BlastWorker {
    /// Starts at the first socket with nothing sent.
    #[must_use]
    pub fn new() -> (r: Self)
        ensures
            r.next_socket == 0,
            r.sequence == 0,
            r.passes == 0,
            r.account == (BlastAccount { in_flight: 0, pending_completed: 0, published: 0 }),
    {
        BlastWorker { next_socket: 0, sequence: 0, account: BlastAccount::new(), passes: 0 }
    }

    /// Sends a batch over the next socket and moves on. Returns whether to look for a
    /// shutdown request now, or the socket that failed.
    pub fn send_pass<S: UdpSocket>(
        &mut self,
        sockets: &mut [S],
        destination: SocketAddr,
        payload: &mut Vec<u8>,
    ) -> (r: Result<bool, (usize, BlastError)>)
        requires
            old(self).next_socket < old(sockets)@.len(),
        ensures
            final(sockets)@.len() == old(sockets)@.len(),
            forall|i: int|
                0 <= i < old(sockets)@.len() && i != old(self).next_socket
                    ==> #[trigger] final(sockets)@[i] == old(sockets)@[i],
            final(payload)@.len() == old(payload)@.len(),
            forall|number: u64|
                with_sequence(final(payload)@, number) == #[trigger] with_sequence(
                    old(payload)@,
                    number,
                ),
            match r {
                Ok(look) => {
                    &&& final(self).next_socket == (old(self).next_socket + 1)
                        % old(sockets)@.len() as int
                    &&& final(self).passes == (old(self).passes + 1) % 0x1_0000_0000
                    &&& look == (final(self).passes % SHUTDOWN_CHECK_PASSES == 0)
                    &&& exists|accepted: usize, completed: usize|
                        {
                            &&& #[trigger] batch_sent(
                                old(sockets)@[old(self).next_socket as int],
                                final(sockets)@[old(self).next_socket as int],
                                old(payload)@,
                                old(self).sequence,
                                destination,
                                accepted,
                                completed,
                            )
                            &&& final(self).sequence == sequence_after(
                                old(self).sequence,
                                accepted as int,
                            )
                            &&& final(self).account == old(self).account.recorded(
                                accepted,
                                completed,
                            )
                        }
                },
                Err((index, error)) => {
                    &&& index == old(self).next_socket
                    &&& final(self).next_socket == old(self).next_socket
                    &&& final(self).account == old(self).account
                    &&& final(self).passes == old(self).passes
                    &&& batch_failed(
                        old(sockets)@[index as int],
                        final(sockets)@[index as int],
                        old(payload)@,
                        old(self).sequence,
                        destination,
                        error,
                        final(self).sequence,
                    )
                },
            },
    {
        let index: usize = self.next_socket;
        let count: usize = sockets.len();
        let ghost asked = sockets@;
        match send_packet_batch(&mut sockets[index], destination, payload, &mut self.sequence) {
            Ok((accepted, completed)) => {
                self.account.record(accepted, completed);
                proof {
                    assert(batch_sent(
                        asked[index as int],
                        sockets@[index as int],
                        old(payload)@,
                        old(self).sequence,
                        destination,
                        accepted,
                        completed,
                    ));

                    if index + 1 < count {
                        vstd::arithmetic::div_mod::lemma_small_mod(
                            (index + 1) as nat,
                            count as nat,
                        );
                    } else {
                        vstd::arithmetic::div_mod::lemma_mod_self_0(count as int);
                    }
                }
                self.next_socket = if index + 1 < count {
                    index + 1
                } else {
                    0
                };
                self.passes = self.passes.wrapping_add(1);
                Ok(self.passes % SHUTDOWN_CHECK_PASSES == 0)
            },
            Err(error) => Err((index, error)),
        }
    }
}

/// What the start barrier of several workers hears.
#[derive(Clone, Copy, Debug, Eq, PartialEq, Structural)]
pub enum ReadyEvent {
    /// A worker reported an error.
    WorkerFailed,
    /// A worker is ready.
    Ready,
    /// Nothing for a while; whether a shutdown was requested.
    Timeout(bool),
    /// No worker can report any more; whether one reported an error.
    Disconnected(bool),
}

/// What the start barrier does next.
#[derive(Clone, Copy, Debug, Eq, PartialEq, Structural)]
pub enum ReadyStep {
    /// Listen for the next event.
    Wait,
    /// All workers are ready.
    Start,
    /// Stop everything and return the worker's error.
    FailWithWorkerError,
    /// Stop everything: a shutdown was requested before the workers were ready.
    FailWithShutdown,
    /// Stop everything: only so many workers became ready.
    FailWithMissing(usize),
}

/// The start barrier of several workers.
#[derive(Clone, Copy, Debug, Eq, PartialEq, Structural)]
pub struct ReadyBarrier {
    /// Workers that are ready.
    pub ready: usize,
    /// Workers to wait for.
    pub expected: usize,
}

impl ReadyBarrier {
    /// Decides on an event.
    pub fn on_event(&mut self, event: ReadyEvent) -> (r: ReadyStep)
        requires
            old(self).ready < old(self).expected,
        ensures
            final(self).expected == old(self).expected,
            final(self).ready == old(self).ready + (if event == ReadyEvent::Ready {
                1int
            } else {
                0
            }),
            r == (match event {
                ReadyEvent::WorkerFailed => ReadyStep::FailWithWorkerError,
                ReadyEvent::Ready => if old(self).ready + 1 == old(self).expected {
                    ReadyStep::Start
                } else {
                    ReadyStep::Wait
                },
                ReadyEvent::Timeout(shutdown) => if shutdown {
                    ReadyStep::FailWithShutdown
                } else {
                    ReadyStep::Wait
                },
                ReadyEvent::Disconnected(failed) => if failed {
                    ReadyStep::FailWithWorkerError
                } else {
                    ReadyStep::FailWithMissing(old(self).ready)
                },
            }),
    {
        match event {
            ReadyEvent::WorkerFailed => ReadyStep::FailWithWorkerError,
            ReadyEvent::Ready => {
                self.ready = self.ready + 1;
                if self.ready == self.expected {
                    ReadyStep::Start
                } else {
                    ReadyStep::Wait
                }
            },
            ReadyEvent::Timeout(shutdown) => {
                if shutdown {
                    ReadyStep::FailWithShutdown
                } else {
                    ReadyStep::Wait
                }
            },
            ReadyEvent::Disconnected(failed) => {
                if failed {
                    ReadyStep::FailWithWorkerError
                } else {
                    ReadyStep::FailWithMissing(self.ready)
                }
            },
        }
    }
}

/// Returns slots that send each received packet back to its source.
pub fn reply_slots<B: PacketBufferMut>(received: Vec<UdpReceive<B, UdpRecvMeta>>) -> (r: Vec<
    TxSlot<UdpTransmit<B::Frozen>>,
>)
    requires
        forall|i: int| 0 <= i < received@.len() ==> (#[trigger] received@[i]).packet.wf(),
    ensures
        r@.len() == received@.len(),
        forall|i: int|
            0 <= i < r@.len() ==> sends_bytes(
                #[trigger] r@[i],
                received@[i].packet.bytes(),
                received@[i].meta.source,
            ),
{
    let ghost given = received@;
    let count: usize = received.len();
    let mut left = reversed(received);
    let mut slots: Vec<TxSlot<UdpTransmit<B::Frozen>>> = Vec::with_capacity(count);
    while left.len() > 0
        invariant
            count == given.len(),
            left@.len() + slots@.len() == count,
            forall|i: int| 0 <= i < left@.len() ==> (#[trigger] left@[i]) == given[count - 1 - i],
            forall|i: int| 0 <= i < given.len() ==> (#[trigger] given[i]).packet.wf(),
            forall|i: int|
                0 <= i < slots@.len() ==> sends_bytes(
                    #[trigger] slots@[i],
                    given[i].packet.bytes(),
                    given[i].meta.source,
                ),
        decreases left@.len(),
    {
        if let Some(item) = left.pop() {
            assert(item == given[slots@.len() as int]);
            let source = item.meta.source;
            let ghost held = slots@;
            slots.push(TxSlot::Ready(UdpTransmit::new(item.packet.freeze(), source)));
            proof {
                assert forall|i: int| 0 <= i < held.len() implies slots@[i] == held[i] by {}
            }
        }
    }
    slots
}

/// The bytes hold a whole IPv4/UDP datagram for `port`.
pub open spec fn is_for_port(packet: Seq<u8>, port: u16) -> bool {
    is_ipv4_udp(packet) && header_fields(packet).destination_port == port
}

/// The number of packets for `port`.
pub open spec fn matching_count(packets: Seq<Seq<u8>>, port: u16) -> nat
    decreases packets.len(),
{
    if packets.len() == 0 {
        0
    } else {
        matching_count(packets.drop_last(), port) + (if is_for_port(packets.last(), port) {
            1nat
        } else {
            0
        })
    }
}

/// `seen` is what a look at the start of `packet` shows.
pub open spec fn shows<B: PacketBuffer>(packet: B, seen: Seq<u8>) -> bool {
    exists|first: Option<&[u8]>| #[trigger]
        call_ensures(B::first_segment, (&packet,), first) && seen == (match first {
            Some(segment) => segment@,
            None => Seq::empty(),
        })
}

/// Of the received packets those for `bind_port` were counted as delivered, the others
/// as dropped.
pub open spec fn counted<B: PacketBuffer, M>(
    received: Seq<IpPacketReceive<B, M>>,
    bind_port: u16,
    counts: (u64, u64),
    counts_after: (u64, u64),
    delivered: u64,
) -> bool {
    exists|seen: Seq<Seq<u8>>|
        {
            &&& seen.len() == received.len()
            &&& forall|i: int|
                0 <= i < seen.len() ==> shows(received[i].packet, #[trigger] seen[i])
            &&& delivered == #[trigger] matching_count(seen, bind_port)
            &&& counts_after.0 == bumped(counts.0, matching_count(seen, bind_port))
            &&& counts_after.1 == bumped(
                counts.1,
                (seen.len() - matching_count(seen, bind_port)) as nat,
            )
        }
}

/// Counts received packets: those for `bind_port` as delivered, the others as dropped.
/// Returns how many were delivered.
pub fn count_received<B: PacketBuffer, M>(
    received: &Vec<IpPacketReceive<B, M>>,
    bind_port: u16,
    total: &mut u64,
    dropped: &mut u64,
) -> (r: u64)
    requires
        forall|i: int| 0 <= i < received@.len() ==> (#[trigger] received@[i]).packet.wf(),
    ensures
        counted(
            received@,
            bind_port,
            (*old(total), *old(dropped)),
            (*final(total), *final(dropped)),
            r,
        ),
{
    let mut delivered: u64 = 0;
    let ghost mut seen: Seq<Seq<u8>> = Seq::empty();
    proof {
        lemma_bumped_adds(*total, 0, 0);
        lemma_bumped_adds(*dropped, 0, 0);
    }
    let mut at: usize = 0;
    while at < received.len()
        invariant
            at <= received@.len(),
            seen.len() == at,
            forall|i: int| 0 <= i < received@.len() ==> (#[trigger] received@[i]).packet.wf(),
            forall|i: int| 0 <= i < seen.len() ==> shows(received@[i].packet, #[trigger] seen[i]),
            delivered == matching_count(seen, bind_port),
            delivered <= at,
            *total == bumped(*old(total), matching_count(seen, bind_port)),
            *dropped == bumped(
                *old(dropped),
                (seen.len() - matching_count(seen, bind_port)) as nat,
            ),
        decreases received@.len() - at,
    {
        let ghost earlier = seen;
        assert(received@[at as int].packet.wf());
        let first = received[at].packet.first_segment();
        let parsed = match first {
            Some(segment) => parse_ipv4_udp(segment),
            None => None,
        };
        proof {
            let bytes = match first {
                Some(segment) => segment@,
                None => Seq::<u8>::empty(),
            };
            assert(call_ensures(B::first_segment, (&received@[at as int].packet,), first));
            assert(shows(received@[at as int].packet, bytes));
            seen = seen.push(bytes);
            assert(seen.drop_last() =~= earlier);
            assert forall|i: int| 0 <= i < seen.len() implies shows(
                received@[i].packet,
                #[trigger] seen[i],
            ) by {
                if i < at {
                    assert(seen[i] == earlier[i]);
                }
            }
            lemma_bumped_adds(
                *old(total),
                matching_count(earlier, bind_port),
                1,
            );
            lemma_bumped_adds(
                *old(dropped),
                (earlier.len() - matching_count(earlier, bind_port)) as nat,
                1,
            );
        }
        let matched = match parsed {
            Some(udp) => udp.destination_port == bind_port,
            None => false,
        };
        if matched {
            bump(total, 1);
            delivered = delivered + 1;
        } else {
            bump(dropped, 1);
        }
        at = at + 1;
    }
    delivered
}

/// The datagram that answers `packet`.
pub open spec fn answer_to(packet: Seq<u8>) -> Seq<u8> {
    reflected(packet.take(header_fields(packet).total_len as int))
}

proof fn lemma_cut_keeps_datagram(packet: Seq<u8>)
    requires
        is_ipv4_udp(packet),
    ensures
        is_ipv4_udp(packet.take(header_fields(packet).total_len as int)),
        header_fields(packet.take(header_fields(packet).total_len as int)) == header_fields(packet),
{
    let cut = packet.take(header_fields(packet).total_len as int);
    assert(cut[0] == packet[0]);
}

/// Turns a received packet for `bind_port` into its answer: cut to its datagram, with
/// its endpoints swapped. Returns the answer and where it goes. There is none for any
/// other packet, nor for one that is not contiguous.
pub fn pong_packet<B: PacketBufferMut>(packet: B, bind_port: u16) -> (r: Option<
    (B::Frozen, Ipv4Addr),
>)
    requires
        packet.wf(),
    ensures
        r is Some <==> packet.is_contiguous() && is_for_port(packet.bytes(), bind_port),
        r matches Some((answer, destination)) ==> {
            &&& answer.wf()
            &&& answer.bytes() == answer_to(packet.bytes())
            &&& destination == header_fields(packet.bytes()).source
        },
{
    let ghost bytes = packet.bytes();
    let parsed = match packet.contiguous() {
        Some(whole) => parse_ipv4_udp(whole),
        None => {
            return None;
        },
    };
    let fields = match parsed {
        Some(fields) => fields,
        None => {
            return None;
        },
    };
    if fields.destination_port != bind_port {
        return None;
    }
    let mut cut = packet;
    let length: usize = cut.len();
    if length > fields.total_len {
        let _ = cut.trim_suffix(length - fields.total_len);
    }
    proof {
        assert(bytes.take(bytes.len() as int) =~= bytes);
        lemma_cut_keeps_datagram(bytes);
    }
    let destination = match cut.contiguous_mut() {
        Some(whole) => reflect_ipv4_udp(whole),
        None => {
            return None;
        },
    };
    match destination {
        Some(destination) => Some((cut.freeze(), destination)),
        None => None,
    }
}

/// The answer to `packet` was accepted by a send of its own, which took the socket from
/// `before` to `sent`.
pub open spec fn was_answered<S: IpPacketSocket, F: Fn(Ipv4Addr) -> Option<S::Egress>>(
    before: S,
    sent: S,
    packet: S::RxBuffer,
    bind_port: u16,
    egress: F,
) -> bool {
    &&& packet.is_contiguous()
    &&& is_for_port(packet.bytes(), bind_port)
    &&& exists|slots: Seq<TxSlot<IpPacketTxItem<S>>>|
        {
            &&& #[trigger] S::may_send(before, sent, slots, Ok::<usize, SendError>(1))
            &&& is_answer::<S, F>(slots, packet, egress)
        }
}

/// There is no answer to `packet` or no way for it, and the socket was left alone; or a
/// send of its own did not accept it.
pub open spec fn was_dropped<S: IpPacketSocket, F: Fn(Ipv4Addr) -> Option<S::Egress>>(
    before: S,
    after: S,
    packet: S::RxBuffer,
    bind_port: u16,
    egress: F,
) -> bool {
    ||| {
        &&& after == before
        &&& {
            ||| !packet.is_contiguous()
            ||| !is_for_port(packet.bytes(), bind_port)
            ||| call_ensures(egress, (header_fields(packet.bytes()).source,), None)
        }
    }
    ||| exists|slots: Seq<TxSlot<IpPacketTxItem<S>>>, accepted: usize|
        {
            &&& #[trigger] S::may_send(before, after, slots, Ok::<usize, SendError>(accepted))
            &&& accepted != 1
            &&& packet.is_contiguous()
            &&& is_for_port(packet.bytes(), bind_port)
            &&& is_answer::<S, F>(slots, packet, egress)
        }
}

/// The answer to `packet` was accepted by a send of its own, and then a notification,
/// which is one of `told`, took the socket to `after` and returned `result`.
pub open spec fn answered_and_notified<S: IpPacketSocket, F: Fn(Ipv4Addr) -> Option<S::Egress>>(
    before: S,
    after: S,
    packet: S::RxBuffer,
    bind_port: u16,
    egress: F,
    told: Set<Notification<S>>,
    result: Result<(), Error>,
) -> bool {
    exists|sent: S|
        {
            &&& #[trigger] was_answered::<S, F>(before, sent, packet, bind_port, egress)
            &&& told.contains(Notification { before: sent, after, result })
        }
}

/// One packet was answered or dropped, which took the socket from `before` to `after`.
/// Where the socket is to be notified, the notification followed the answer: it is one of
/// `told`.
pub open spec fn fate_holds<S: IpPacketSocket, F: Fn(Ipv4Addr) -> Option<S::Egress>>(
    before: S,
    after: S,
    packet: S::RxBuffer,
    bind_port: u16,
    egress: F,
    notify: bool,
    told: Set<Notification<S>>,
    answered: bool,
) -> bool {
    if !answered {
        was_dropped::<S, F>(before, after, packet, bind_port, egress)
    } else if notify {
        answered_and_notified::<S, F>(
            before,
            after,
            packet,
            bind_port,
            egress,
            told,
            Ok::<(), Error>(()),
        )
    } else {
        was_answered::<S, F>(before, after, packet, bind_port, egress)
    }
}

/// `slots` is one slot with the answer to `packet`, on the way that `egress` knows for
/// it.
pub open spec fn is_answer<S: IpPacketSocket, F: Fn(Ipv4Addr) -> Option<S::Egress>>(
    slots: Seq<TxSlot<IpPacketTxItem<S>>>,
    packet: S::RxBuffer,
    egress: F,
) -> bool {
    &&& slots.len() == 1
    &&& slots[0] matches TxSlot::Ready(transmit)
    &&& transmit.packet.wf()
    &&& transmit.packet.bytes() == answer_to(packet.bytes())
    &&& call_ensures(
        egress,
        (header_fields(packet.bytes()).source,),
        Some(transmit.egress),
    )
    &&& transmit.source is None
    &&& transmit.destination is None
    &&& transmit.hop_limit is None
    &&& transmit.offload@ == 0
    &&& transmit.tso_segment_size is None
}

/// The number of `true` values.
pub open spec fn true_count(fates: Seq<bool>) -> nat
    decreases fates.len(),
{
    if fates.len() == 0 {
        0
    } else {
        true_count(fates.drop_last()) + (if fates.last() {
            1nat
        } else {
            0
        })
    }
}

/// Every packet has its fate: answered, or dropped. The socket went through `states`.
pub open spec fn fates_hold<S: IpPacketSocket, F: Fn(Ipv4Addr) -> Option<S::Egress>>(
    received: Seq<IpPacketRxItem<S>>,
    fates: Seq<bool>,
    states: Seq<S>,
    bind_port: u16,
    egress: F,
    notify: bool,
    told: Set<Notification<S>>,
) -> bool {
    &&& fates.len() <= received.len()
    &&& states.len() == fates.len() + 1
    &&& forall|i: int|
        0 <= i < fates.len() ==> fate_holds::<S, F>(
            states[i],
            states[i + 1],
            received[i].packet,
            bind_port,
            egress,
            notify,
            told,
            #[trigger] fates[i],
        )
}

/// The received packets were answered as far as `r` says: all of them, with this many
/// answers, or up to one whose send failed or whose notification failed, or all of them
/// before reclaiming completions failed.
pub open spec fn ponged<S: IpPacketSocket, F: Fn(Ipv4Addr) -> Option<S::Egress>>(
    socket_before: S,
    socket_after: S,
    received: Seq<IpPacketRxItem<S>>,
    egress: F,
    bind_port: u16,
    notify: bool,
    told: Set<Notification<S>>,
    counts: (u64, u64),
    counts_after: (u64, u64),
    r: Result<u64, BlastError>,
) -> bool {
    exists|fates: Seq<bool>, states: Seq<S>|
        {
            &&& #[trigger] fates_hold::<S, F>(
                received,
                fates,
                states,
                bind_port,
                egress,
                notify,
                told,
            )
            &&& states[0] == socket_before
            &&& counts_after.0 == bumped(counts.0, true_count(fates))
            &&& counts_after.1 == bumped(counts.1, (fates.len() - true_count(fates)) as nat)
            &&& match r {
                Ok(delivered) => {
                    &&& delivered == true_count(fates)
                    &&& fates.len() == received.len()
                    &&& exists|completed: usize| #[trigger]
                        S::may_reclaim(
                            states.last(),
                            socket_after,
                            Ok::<usize, Error>(completed),
                        )
                },
                Err(BlastError::Send(error)) => {
                    &&& fates.len() < received.len()
                    &&& answer_failed::<S, F>(
                        states.last(),
                        socket_after,
                        received[fates.len() as int].packet,
                        bind_port,
                        egress,
                        error,
                    )
                },
                Err(BlastError::Socket(error)) => if fates.len() < received.len() {
                    &&& notify
                    &&& answered_and_notified::<S, F>(
                        states.last(),
                        socket_after,
                        received[fates.len() as int].packet,
                        bind_port,
                        egress,
                        told,
                        Err::<(), Error>(error),
                    )
                } else {
                    S::may_reclaim(states.last(), socket_after, Err::<usize, Error>(error))
                },
                Err(BlastError::Buffer(_)) => false,
            }
        }
}

/// The send of the answer to `packet` failed with `error`.
pub open spec fn answer_failed<S: IpPacketSocket, F: Fn(Ipv4Addr) -> Option<S::Egress>>(
    before: S,
    after: S,
    packet: S::RxBuffer,
    bind_port: u16,
    egress: F,
    error: SendError,
) -> bool {
    &&& packet.is_contiguous()
    &&& is_for_port(packet.bytes(), bind_port)
    &&& exists|slots: Seq<TxSlot<IpPacketTxItem<S>>>|
        {
            &&& #[trigger] S::may_send(before, after, slots, Err::<usize, SendError>(error))
            &&& is_answer::<S, F>(slots, packet, egress)
        }
}

/// Answers received packets for `bind_port` through `socket`, where `egress` knows the
/// way. Packets for another port, without a way, or that the socket does not take are
/// dropped. With `notify` the socket is notified after each answer, as a socket needs
/// that is not polled all the time. Returns how many were answered.
pub fn pong_received<S: IpPacketSocket, F: Fn(Ipv4Addr) -> Option<S::Egress>>(
    socket: &mut S,
    received: Vec<IpPacketRxItem<S>>,
    egress: &F,
    bind_port: u16,
    notify: bool,
    total: &mut u64,
    dropped: &mut u64,
) -> (r: Result<u64, BlastError>) where
    S::RxBuffer: PacketBufferMut<Frozen = IpPacketTxBuffer<S>>,

    requires
        forall|i: int| 0 <= i < received@.len() ==> (#[trigger] received@[i]).packet.wf(),
        forall|destination: Ipv4Addr| #[trigger] call_requires(*egress, (destination,)),
    ensures
        exists|told: Set<Notification<S>>|
            {
                &&& #[trigger] ponged::<S, F>(
                    *old(socket),
                    *final(socket),
                    received@,
                    *egress,
                    bind_port,
                    notify,
                    told,
                    (*old(total), *old(dropped)),
                    (*final(total), *final(dropped)),
                    r,
                )
                &&& forall|note: Notification<S>| #[trigger]
                    told.contains(note) ==> exists|notified: &mut S|
                        {
                            &&& #[trigger] call_ensures(S::notify_tx, (notified,), note.result)
                            &&& *notified == note.before
                            &&& *final(notified) == note.after
                        }
            },
{
    let mut delivered: u64 = 0;
    let ghost mut fates: Seq<bool> = Seq::empty();
    let ghost mut states: Seq<S> = seq![*socket];
    let ghost mut told: Set<Notification<S>> = Set::empty();
    let count: usize = received.len();
    let ghost given = received@;
    let mut left = reversed(received);
    proof {
        lemma_bumped_adds(*total, 0, 0);
        lemma_bumped_adds(*dropped, 0, 0);
    }
    while left.len() > 0
        invariant
            count == given.len(),
            given == received@,
            forall|i: int| 0 <= i < given.len() ==> (#[trigger] given[i]).packet.wf(),
            forall|i: int| 0 <= i < left@.len() ==> (#[trigger] left@[i]) == given[count - 1 - i],
            left@.len() + fates.len() == count,
            delivered == true_count(fates),
            delivered <= fates.len(),
            fates_hold::<S, F>(given, fates, states, bind_port, *egress, notify, told),
            forall|note: Notification<S>| #[trigger]
                told.contains(note) ==> exists|notified: &mut S|
                    {
                        &&& #[trigger] call_ensures(S::notify_tx, (notified,), note.result)
                        &&& *notified == note.before
                        &&& *final(notified) == note.after
                    },
            states[0] == *old(socket),
            states.last() == *socket,
            *total == bumped(*old(total), true_count(fates)),
            *dropped == bumped(*old(dropped), (fates.len() - true_count(fates)) as nat),
            forall|destination: Ipv4Addr| #[trigger] call_requires(*egress, (destination,)),
        decreases left@.len(),
    {
        let ghost earlier = fates;
        let ghost states_before = states;
        let ghost told_before = told;
        let ghost before = *socket;
        proof {
            lemma_bumped_adds(*old(total), true_count(earlier), 1);
            lemma_bumped_adds(
                *old(dropped),
                (earlier.len() - true_count(earlier)) as nat,
                1,
            );
        }
        if let Some(item) = left.pop() {
            let ghost asked = item.packet;
            assert(item == given[earlier.len() as int]);
            let answer = match pong_packet(item.packet, bind_port) {
                Some((packet, destination)) => match (*egress)(destination) {
                    Some(way) => Some(IpPacketTransmit::new(packet, way)),
                    None => None,
                },
                None => None,
            };
            let mut accepted: usize = 0;
            if let Some(transmit) = answer {
                let mut slots: Vec<TxSlot<IpPacketTxItem<S>>> = Vec::with_capacity(1);
                slots.push(TxSlot::Ready(transmit));
                let ghost offered = slots@;
                assert(is_answer::<S, F>(offered, asked, *egress));
                let outcome = socket.send(slots.as_mut_slice());
                assert(S::may_send(before, *socket, offered, outcome));
                match outcome {
                    Ok(sent) => {
                        accepted = sent;
                    },
                    Err(error) => {
                        assert(answer_failed::<S, F>(
                            before,
                            *socket,
                            asked,
                            bind_port,
                            *egress,
                            error,
                        ));
                        assert(ponged::<S, F>(
                            *old(socket),
                            *socket,
                            received@,
                            *egress,
                            bind_port,
                            notify,
                            told,
                            (*old(total), *old(dropped)),
                            (*total, *dropped),
                            Err::<u64, BlastError>(BlastError::Send(error)),
                        ));
                        return Err(BlastError::Send(error));
                    },
                }
            }
            let matched = accepted == 1;
            let ghost sent = *socket;
            proof {
                assert(if matched {
                    was_answered::<S, F>(before, sent, asked, bind_port, *egress)
                } else {
                    was_dropped::<S, F>(before, sent, asked, bind_port, *egress)
                });
            }
            if matched {
                if notify {
                    let result = socket.notify_tx();
                    proof {
                        let note = Notification { before: sent, after: *socket, result };
                        told = told.insert(note);
                        assert(exists|notified: &mut S|
                            {
                                &&& #[trigger] call_ensures(S::notify_tx, (notified,), note.result)
                                &&& *notified == note.before
                                &&& *final(notified) == note.after
                            });
                        lemma_more_notes::<S, F>(
                            given,
                            fates,
                            states,
                            bind_port,
                            *egress,
                            notify,
                            told_before,
                            told,
                        );
                    }
                    if let Err(error) = result {
                        proof {
                            assert(answered_and_notified::<S, F>(
                                before,
                                *socket,
                                asked,
                                bind_port,
                                *egress,
                                told,
                                Err::<(), Error>(error),
                            ));
                            assert(ponged::<S, F>(
                                *old(socket),
                                *socket,
                                received@,
                                *egress,
                                bind_port,
                                notify,
                                told,
                                (*old(total), *old(dropped)),
                                (*total, *dropped),
                                Err::<u64, BlastError>(BlastError::Socket(error)),
                            ));
                        }
                        return Err(BlastError::Socket(error));
                    }
                    proof {
                        let done: () = result->Ok_0;
                        assert(done == ());
                        assert(result == Ok::<(), Error>(done));
                        assert(answered_and_notified::<S, F>(
                            before,
                            *socket,
                            asked,
                            bind_port,
                            *egress,
                            told,
                            Ok::<(), Error>(()),
                        ));
                    }
                }
                bump(total, 1);
                delivered = delivered + 1;
            } else {
                bump(dropped, 1);
            }
            proof {
                fates = fates.push(matched);
                states = states.push(*socket);
                assert(fates.drop_last() =~= earlier);
                assert forall|i: int| 0 <= i < fates.len() implies fate_holds::<S, F>(
                    states[i],
                    states[i + 1],
                    given[i].packet,
                    bind_port,
                    *egress,
                    notify,
                    told,
                    #[trigger] fates[i],
                ) by {
                    if i < earlier.len() {
                        assert(fates[i] == earlier[i]);
                        assert(states[i] == states_before[i]);
                        assert(states[i + 1] == states_before[i + 1]);
                    } else {
                        assert(states[i] == before);
                    }
                }
            }
        }
    }
    let ghost before = *socket;
    let reclaimed = socket.drain_tx_completions();
    assert(S::may_reclaim(before, *socket, reclaimed));
    assert(fates_hold::<S, F>(received@, fates, states, bind_port, *egress, notify, told));
    assert(fates.len() == received@.len());
    let result = match reclaimed {
        Ok(completed) => {
            assert(S::may_reclaim(before, *socket, Ok::<usize, Error>(completed)));
            Ok(delivered)
        },
        Err(error) => Err(BlastError::Socket(error)),
    };
    assert(ponged::<S, F>(
        *old(socket),
        *socket,
        received@,
        *egress,
        bind_port,
        notify,
        told,
        (*old(total), *old(dropped)),
        (*total, *dropped),
        result,
    ));
    result
}

/// More notifications leave the fates what they are.
proof fn lemma_more_notes<S: IpPacketSocket, F: Fn(Ipv4Addr) -> Option<S::Egress>>(
    received: Seq<IpPacketRxItem<S>>,
    fates: Seq<bool>,
    states: Seq<S>,
    bind_port: u16,
    egress: F,
    notify: bool,
    told: Set<Notification<S>>,
    more: Set<Notification<S>>,
)
    requires
        fates_hold::<S, F>(received, fates, states, bind_port, egress, notify, told),
        told.subset_of(more),
    ensures
        fates_hold::<S, F>(received, fates, states, bind_port, egress, notify, more),
{
    assert forall|i: int| 0 <= i < fates.len() implies fate_holds::<S, F>(
        states[i],
        states[i + 1],
        received[i].packet,
        bind_port,
        egress,
        notify,
        more,
        #[trigger] fates[i],
    ) by {
        if fates[i] && notify {
            let sent = choose|sent: S|
                {
                    &&& #[trigger] was_answered::<S, F>(
                        states[i],
                        sent,
                        received[i].packet,
                        bind_port,
                        egress,
                    )
                    &&& told.contains(
                        Notification {
                            before: sent,
                            after: states[i + 1],
                            result: Ok::<(), Error>(()),
                        },
                    )
                };
            assert(was_answered::<S, F>(
                states[i],
                sent,
                received[i].packet,
                bind_port,
                egress,
            ));
        }
    }
}

/// What a listener does with received packets.
#[derive(Clone, Copy, Debug, Eq, PartialEq, Structural)]
pub enum ListenMode {
    /// Count them.
    Count,
    /// Answer them, and notify the socket after each answer if asked.
    Pong {
        /// Notify the socket.
        notify: bool,
    },
}

/// How a listener served a socket once. `r` is the number of packets that were counted
/// or answered, or nothing when nothing was received.
pub open spec fn served<S: IpPacketSocket, F: Fn(Ipv4Addr) -> Option<S::Egress>>(
    before: S,
    after: S,
    mode: ListenMode,
    egress: F,
    bind_port: u16,
    told: Set<Notification<S>>,
    counts: (u64, u64),
    counts_after: (u64, u64),
    r: Result<Option<u64>, BlastError>,
) -> bool {
    exists|given: S, received: Seq<IpPacketRxItem<S>>, result: Result<usize, Error>|
        {
            &&& #[trigger] S::may_recv(before, given, received, result)
            &&& match result {
                Err(error) => {
                    &&& r == Err::<Option<u64>, BlastError>(BlastError::Socket(error))
                    &&& given == after
                    &&& counts_after == counts
                },
                Ok(count) => if count == 0 {
                    &&& served_nothing(given, after, mode, r)
                    &&& counts_after == counts
                } else {
                    &&& received.len() == count
                    &&& served_packets::<S, F>(
                        given,
                        after,
                        received,
                        mode,
                        egress,
                        bind_port,
                        told,
                        counts,
                        counts_after,
                        r,
                    )
                },
            }
        }
}

/// Nothing was received. A listener that answers reclaims completions then.
pub open spec fn served_nothing<S: IpPacketSocket>(
    given: S,
    after: S,
    mode: ListenMode,
    r: Result<Option<u64>, BlastError>,
) -> bool {
    match mode {
        ListenMode::Count => given == after && r == Ok::<Option<u64>, BlastError>(None),
        ListenMode::Pong { .. } => exists|reclaimed: Result<usize, Error>|
            {
                &&& #[trigger] S::may_reclaim(given, after, reclaimed)
                &&& r == (match reclaimed {
                    Ok(_) => Ok::<Option<u64>, BlastError>(None),
                    Err(error) => Err::<Option<u64>, BlastError>(BlastError::Socket(error)),
                })
            },
    }
}

/// Packets were received, and counted or answered.
pub open spec fn served_packets<S: IpPacketSocket, F: Fn(Ipv4Addr) -> Option<S::Egress>>(
    given: S,
    after: S,
    received: Seq<IpPacketRxItem<S>>,
    mode: ListenMode,
    egress: F,
    bind_port: u16,
    told: Set<Notification<S>>,
    counts: (u64, u64),
    counts_after: (u64, u64),
    r: Result<Option<u64>, BlastError>,
) -> bool {
    match mode {
        ListenMode::Count => {
            &&& given == after
            &&& r matches Ok(Some(delivered))
            &&& counted(received, bind_port, counts, counts_after, delivered)
        },
        ListenMode::Pong { notify } => match r {
            Ok(Some(delivered)) => ponged::<S, F>(
                given,
                after,
                received,
                egress,
                bind_port,
                notify,
                told,
                counts,
                counts_after,
                Ok::<u64, BlastError>(delivered),
            ),
            Ok(None) => false,
            Err(error) => ponged::<S, F>(
                given,
                after,
                received,
                egress,
                bind_port,
                notify,
                told,
                counts,
                counts_after,
                Err::<u64, BlastError>(error),
            ),
        },
    }
}

/// Receives once from `socket` and counts or answers what was received. `rx` is working
/// memory.
pub fn serve_socket<S: IpPacketSocket, F: Fn(Ipv4Addr) -> Option<S::Egress>>(
    socket: &mut S,
    rx: &mut RecvBatch<IpPacketRxItem<S>>,
    mode: ListenMode,
    egress: &F,
    bind_port: u16,
    total: &mut u64,
    dropped: &mut u64,
) -> (r: Result<Option<u64>, BlastError>) where
    S::RxBuffer: PacketBufferMut<Frozen = IpPacketTxBuffer<S>>,

    requires
        old(rx).wf(),
        forall|destination: Ipv4Addr| #[trigger] call_requires(*egress, (destination,)),
    ensures
        final(rx).wf(),
        final(rx).spec_capacity() == old(rx).spec_capacity(),
        exists|told: Set<Notification<S>>|
            {
                &&& #[trigger] served::<S, F>(
                    *old(socket),
                    *final(socket),
                    mode,
                    *egress,
                    bind_port,
                    told,
                    (*old(total), *old(dropped)),
                    (*final(total), *final(dropped)),
                    r,
                )
                &&& forall|note: Notification<S>| #[trigger]
                    told.contains(note) ==> exists|notified: &mut S|
                        {
                            &&& #[trigger] call_ensures(S::notify_tx, (notified,), note.result)
                            &&& *notified == note.before
                            &&& *final(notified) == note.after
                        }
            },
{
    let ghost none: Set<Notification<S>> = Set::empty();
    rx.clear();
    let result = socket.recv(rx);
    let ghost given = *socket;
    let ghost received = rx@;
    proof {
        assert(rx@.skip(0) =~= rx@);
        assert(S::may_recv(*old(socket), given, received, result));
    }
    let count: usize = match result {
        Ok(count) => count,
        Err(error) => {
            let outcome = Err(BlastError::Socket(error));
            assert(served::<S, F>(
                *old(socket),
                *socket,
                mode,
                *egress,
                bind_port,
                none,
                (*old(total), *old(dropped)),
                (*total, *dropped),
                outcome,
            ));
            return outcome;
        },
    };
    if count == 0 {
        let outcome = match mode {
            ListenMode::Count => Ok(None),
            ListenMode::Pong { .. } => {
                let reclaimed = socket.drain_tx_completions();
                assert(S::may_reclaim(given, *socket, reclaimed));
                match reclaimed {
                    Ok(_) => Ok(None),
                    Err(error) => Err(BlastError::Socket(error)),
                }
            },
        };
        assert(served::<S, F>(
            *old(socket),
            *socket,
            mode,
            *egress,
            bind_port,
            none,
            (*old(total), *old(dropped)),
            (*total, *dropped),
            outcome,
        ));
        return outcome;
    }
    let items = rx.drain();
    match mode {
        ListenMode::Count => {
            let outcome = Ok(Some(count_received(&items, bind_port, total, dropped)));
            assert(served::<S, F>(
                *old(socket),
                *socket,
                mode,
                *egress,
                bind_port,
                none,
                (*old(total), *old(dropped)),
                (*total, *dropped),
                outcome,
            ));
            outcome
        },
        ListenMode::Pong { notify } => {
            let ghost counts = (*total, *dropped);
            let ponged_result = pong_received(
                socket,
                items,
                egress,
                bind_port,
                notify,
                total,
                dropped,
            );
            let ghost told = choose|told: Set<Notification<S>>|
                {
                    &&& #[trigger] ponged::<S, F>(
                        given,
                        *socket,
                        received,
                        *egress,
                        bind_port,
                        notify,
                        told,
                        counts,
                        (*total, *dropped),
                        ponged_result,
                    )
                    &&& forall|note: Notification<S>| #[trigger]
                        told.contains(note) ==> exists|notified: &mut S|
                            {
                                &&& #[trigger] call_ensures(S::notify_tx, (notified,), note.result)
                                &&& *notified == note.before
                                &&& *final(notified) == note.after
                            }
                };
            let outcome = match ponged_result {
                Ok(delivered) => Ok(Some(delivered)),
                Err(error) => Err(error),
            };
            assert(served::<S, F>(
                *old(socket),
                *socket,
                mode,
                *egress,
                bind_port,
                told,
                (*old(total), *old(dropped)),
                (*total, *dropped),
                outcome,
            ));
            outcome
        },
    }
}

/// The sockets were served one after the other, as `results` say, which took the
/// counters through `counts`. `tolds` holds the notifications of each socket.
pub open spec fn all_served<S: IpPacketSocket, F: Fn(Ipv4Addr) -> Option<S::Egress>>(
    before: Seq<S>,
    after: Seq<S>,
    mode: ListenMode,
    egress: F,
    bind_port: u16,
    tolds: Seq<Set<Notification<S>>>,
    counts: Seq<(u64, u64)>,
    results: Seq<Result<Option<u64>, BlastError>>,
) -> bool {
    &&& after.len() == before.len()
    &&& results.len() <= before.len()
    &&& counts.len() == results.len() + 1
    &&& tolds.len() == results.len()
    &&& forall|i: int|
        0 <= i < results.len() ==> served::<S, F>(
            before[i],
            after[i],
            mode,
            egress,
            bind_port,
            tolds[i],
            counts[i],
            counts[i + 1],
            #[trigger] results[i],
        )
    &&& forall|i: int|
        results.len() <= i < before.len() ==> #[trigger] after[i] == before[i]
}

/// Some socket delivered packets.
pub open spec fn any_delivered(results: Seq<Result<Option<u64>, BlastError>>) -> bool {
    exists|i: int|
        0 <= i < results.len() && ((#[trigger] results[i]) matches Ok(Some(delivered)) && delivered
            > 0)
}

/// Serves every socket once, up to the first that fails. Returns whether any packet was
/// counted or answered.
pub fn serve_all<S: IpPacketSocket, F: Fn(Ipv4Addr) -> Option<S::Egress>>(
    sockets: &mut [S],
    rx: &mut RecvBatch<IpPacketRxItem<S>>,
    mode: ListenMode,
    egress: &F,
    bind_port: u16,
    total: &mut u64,
    dropped: &mut u64,
) -> (r: Result<bool, BlastError>) where
    S::RxBuffer: PacketBufferMut<Frozen = IpPacketTxBuffer<S>>,

    requires
        old(rx).wf(),
        forall|destination: Ipv4Addr| #[trigger] call_requires(*egress, (destination,)),
    ensures
        final(rx).wf(),
        final(rx).spec_capacity() == old(rx).spec_capacity(),
        exists|
            tolds: Seq<Set<Notification<S>>>,
            counts: Seq<(u64, u64)>,
            results: Seq<Result<Option<u64>, BlastError>>,
        |
            {
                &&& #[trigger] all_served::<S, F>(
                    old(sockets)@,
                    final(sockets)@,
                    mode,
                    *egress,
                    bind_port,
                    tolds,
                    counts,
                    results,
                )
                &&& forall|i: int, note: Notification<S>|
                    0 <= i < tolds.len() && #[trigger] tolds[i].contains(note) ==> exists|
                        notified: &mut S,
                    |
                        {
                            &&& #[trigger] call_ensures(S::notify_tx, (notified,), note.result)
                            &&& *notified == note.before
                            &&& *final(notified) == note.after
                        }
                &&& counts[0] == (*old(total), *old(dropped))
                &&& counts.last() == (*final(total), *final(dropped))
                &&& match r {
                    Ok(progressed) => {
                        &&& results.len() == old(sockets)@.len()
                        &&& forall|i: int|
                            0 <= i < results.len() ==> (#[trigger] results[i]) is Ok
                        &&& progressed == any_delivered(results)
                    },
                    Err(error) => {
                        &&& results.len() > 0
                        &&& results.last() == Err::<Option<u64>, BlastError>(error)
                        &&& forall|i: int|
                            0 <= i < results.len() - 1 ==> (#[trigger] results[i]) is Ok
                    },
                }
            },
{
    let ghost mut counts: Seq<(u64, u64)> = seq![(*total, *dropped)];
    let ghost mut results: Seq<Result<Option<u64>, BlastError>> = Seq::empty();
    proof {
        let tolds: Seq<Set<Notification<S>>> = Seq::empty();
        assert(all_served::<S, F>(
            old(sockets)@,
            sockets@,
            mode,
            *egress,
            bind_port,
            tolds,
            counts,
            results,
        ));
    }
    let mut progressed = false;
    let mut index: usize = 0;
    while index < sockets.len()
        invariant
            index <= sockets@.len(),
            rx.wf(),
            rx.spec_capacity() == old(rx).spec_capacity(),
            forall|destination: Ipv4Addr| #[trigger] call_requires(*egress, (destination,)),
            results.len() == index,
            exists|tolds: Seq<Set<Notification<S>>>|
                {
                    &&& #[trigger] all_served::<S, F>(
                        old(sockets)@,
                        sockets@,
                        mode,
                        *egress,
                        bind_port,
                        tolds,
                        counts,
                        results,
                    )
                    &&& forall|i: int, note: Notification<S>|
                        0 <= i < tolds.len() && #[trigger] tolds[i].contains(note) ==> exists|
                            notified: &mut S,
                        |
                            {
                                &&& #[trigger] call_ensures(S::notify_tx, (notified,), note.result)
                                &&& *notified == note.before
                                &&& *final(notified) == note.after
                            }
                },
            sockets@.len() == old(sockets)@.len(),
            forall|i: int|
                index <= i < sockets@.len() ==> #[trigger] sockets@[i] == old(sockets)@[i],
            counts.len() == index + 1,
            counts[0] == (*old(total), *old(dropped)),
            counts.last() == (*total, *dropped),
            forall|i: int| 0 <= i < results.len() ==> (#[trigger] results[i]) is Ok,
            progressed == any_delivered(results),
        decreases sockets@.len() - index,
    {
        let ghost asked = sockets@;
        let ghost counts_before = counts;
        let ghost results_before = results;
        let result = serve_socket(
            &mut sockets[index],
            rx,
            mode,
            egress,
            bind_port,
            total,
            dropped,
        );
        proof {
            let told = choose|told: Set<Notification<S>>|
                {
                    &&& #[trigger] served::<S, F>(
                        asked[index as int],
                        sockets@[index as int],
                        mode,
                        *egress,
                        bind_port,
                        told,
                        counts.last(),
                        (*total, *dropped),
                        result,
                    )
                    &&& forall|note: Notification<S>| #[trigger]
                        told.contains(note) ==> exists|notified: &mut S|
                            {
                                &&& #[trigger] call_ensures(S::notify_tx, (notified,), note.result)
                                &&& *notified == note.before
                                &&& *final(notified) == note.after
                            }
                };
            let tolds_before = choose|tolds: Seq<Set<Notification<S>>>|
                {
                    &&& #[trigger] all_served::<S, F>(
                        old(sockets)@,
                        asked,
                        mode,
                        *egress,
                        bind_port,
                        tolds,
                        counts,
                        results,
                    )
                    &&& forall|i: int, note: Notification<S>|
                        0 <= i < tolds.len() && #[trigger] tolds[i].contains(note) ==> exists|
                            notified: &mut S,
                        |
                            {
                                &&& #[trigger] call_ensures(S::notify_tx, (notified,), note.result)
                                &&& *notified == note.before
                                &&& *final(notified) == note.after
                            }
                };
            let tolds = tolds_before.push(told);
            assert forall|i: int, note: Notification<S>|
                0 <= i < tolds.len() && #[trigger] tolds[i].contains(note) implies exists|
                notified: &mut S,
            |
                {
                    &&& #[trigger] call_ensures(S::notify_tx, (notified,), note.result)
                    &&& *notified == note.before
                    &&& *final(notified) == note.after
                } by {
                if i < index {
                    assert(tolds_before[i].contains(note));
                } else {
                    assert(told.contains(note));
                }
            }
            counts = counts.push((*total, *dropped));
            results = results.push(result);
            assert forall|i: int| 0 <= i < results.len() implies served::<S, F>(
                old(sockets)@[i],
                sockets@[i],
                mode,
                *egress,
                bind_port,
                tolds[i],
                counts[i],
                counts[i + 1],
                #[trigger] results[i],
            ) by {
                if i < index {
                    assert(tolds[i] == tolds_before[i]);
                    assert(results[i] == results_before[i]);
                    assert(counts[i] == counts_before[i]);
                    assert(counts[i + 1] == counts_before[i + 1]);
                    assert(sockets@[i] == asked[i]);
                } else {
                    assert(asked[i] == old(sockets)@[i]);
                    assert(counts[i] == counts_before.last());
                }
            }
            assert forall|i: int|
                results.len() <= i < sockets@.len() implies #[trigger] sockets@[i] == old(
                sockets,
            )@[i] by {
                assert(sockets@[i] == asked[i]);
            }
            assert(all_served::<S, F>(
                old(sockets)@,
                sockets@,
                mode,
                *egress,
                bind_port,
                tolds,
                counts,
                results,
            ));
            lemma_any_delivered_push(results_before, result);
            assert forall|i: int| 0 <= i < results.len() - 1 implies (
            #[trigger] results[i]) is Ok by {
                assert(results[i] == results_before[i]);
            }
        }
        match result {
            Ok(delivered) => {
                if let Some(count) = delivered {
                    if count > 0 {
                        progressed = true;
                    }
                }
            },
            Err(error) => {
                return Err(error);
            },
        }
        index = index + 1;
    }
    Ok(progressed)
}

proof fn lemma_any_delivered_push(
    results: Seq<Result<Option<u64>, BlastError>>,
    result: Result<Option<u64>, BlastError>,
)
    ensures
        any_delivered(results.push(result)) == (any_delivered(results) || (
        result matches Ok(Some(delivered)) && delivered > 0)),
{
    let longer = results.push(result);
    if any_delivered(results) {
        let i = choose|i: int|
            0 <= i < results.len() && ((#[trigger] results[i]) matches Ok(Some(delivered))
                && delivered > 0);
        assert(longer[i] == results[i]);
    }
    if result matches Ok(Some(delivered)) && delivered > 0 {
        assert(longer[results.len() as int] == result);
    }
    if any_delivered(longer) {
        let i = choose|i: int|
            0 <= i < longer.len() && ((#[trigger] longer[i]) matches Ok(Some(delivered))
                && delivered > 0);
        if i < results.len() {
            assert(results[i] == longer[i]);
        }
    }
}

/// What the thread that watches several workers does next.
#[derive(Clone, Copy, Debug, Eq, PartialEq, Structural)]
pub enum SupervisorStep {
    /// Look again later.
    Continue,
    /// Stop the workers and report the result.
    Stop,
    /// Stop the workers and report the worker's error.
    Fail,
}

/// Decides what the thread that watches several workers does next. A failed worker comes
/// first. Otherwise the work ends on a shutdown request, when a worker has finished, or
/// when a limit is reached.
pub fn supervise(
    limit: RunLimit,
    count: u64,
    elapsed: TimeSpan,
    shutdown: bool,
    worker_finished: bool,
    worker_failed: bool,
) -> (r: SupervisorStep)
    requires
        limit.wf(),
        elapsed.wf(),
    ensures
        r == (if worker_failed {
            SupervisorStep::Fail
        } else if shutdown || worker_finished || !limit.allows(count as int, elapsed@) {
            SupervisorStep::Stop
        } else {
            SupervisorStep::Continue
        }),
{
    if worker_failed {
        SupervisorStep::Fail
    } else if shutdown || worker_finished || !limit.keep_running(count, elapsed) {
        SupervisorStep::Stop
    } else {
        SupervisorStep::Continue
    }
}

/// What a worker does before the start.
#[derive(Clone, Copy, Debug, Eq, PartialEq, Structural)]
pub enum StartStep {
    /// Look again later.
    Wait,
    /// Start to work.
    Run,
    /// Return without any work.
    Quit,
}

/// Decides what a worker that is ready does before the start.
#[must_use]
pub fn worker_start(start: bool, stop: bool, shutdown: bool) -> (r: StartStep)
    ensures
        r == (if stop || shutdown {
            StartStep::Quit
        } else if start {
            StartStep::Run
        } else {
            StartStep::Wait
        }),
{
    if stop || shutdown {
        StartStep::Quit
    } else if start {
        StartStep::Run
    } else {
        StartStep::Wait
    }
}

/// Sequence numbers count up by one.
pub proof fn law_sequence_numbers_count_up(first: u64, steps: int)
    requires
        0 <= steps,
    ensures
        first + steps <= u64::MAX ==> sequence_after(first, steps) == first + steps,
        first + steps == u64::MAX + 1 ==> sequence_after(first, steps) == 0,
        sequence_after(first, 0) == first,
{
}

/// A packet that is filled is the payload with its sequence number in the first eight
/// bytes, most significant byte first. A payload that does not fit is refused.
pub proof fn law_filled_packets_carry_their_number<B: PacketBufferMut>(
    sequence: u64,
    r: Result<(), BufferAccessError>,
)
    ensures
        forall|buffer: &mut B, payload: &mut Vec<u8>| #[trigger]
            call_ensures(fill_packet::<B>, (buffer, payload, sequence), r) ==> {
                let sent = final(buffer).bytes();
                &&& r is Ok <==> payload@.len() <= buffer.tailroom_spec()
                &&& r is Err ==> sent == buffer.bytes()
                &&& r is Ok ==> {
                    &&& sent.len() == payload@.len()
                    &&& forall|i: int| 8 <= i < sent.len() ==> #[trigger] sent[i] == payload@[i]
                    &&& sent.len() >= 8 ==> sequence_number(sent) == sequence
                }
            },
{
    assert forall|buffer: &mut B, payload: &mut Vec<u8>| #[trigger]
        call_ensures(fill_packet::<B>, (buffer, payload, sequence), r) implies {
        let sent = final(buffer).bytes();
        &&& r is Ok <==> payload@.len() <= buffer.tailroom_spec()
        &&& r is Err ==> sent == buffer.bytes()
        &&& r is Ok ==> {
            &&& sent.len() == payload@.len()
            &&& forall|i: int| 8 <= i < sent.len() ==> #[trigger] sent[i] == payload@[i]
            &&& sent.len() >= 8 ==> sequence_number(sent) == sequence
        }
    } by {
        if payload@.len() >= 8 {
            law_sequence_round_trip(payload@, sequence);
        }
    }
}

/// The number in the first eight bytes of `packet`, most significant byte first.
pub open spec fn sequence_number(packet: Seq<u8>) -> int {
    packet[0] * 0x100_0000_0000_0000 + packet[1] * 0x1_0000_0000_0000 + packet[2] * 0x100_0000_0000
        + packet[3] * 0x1_0000_0000 + packet[4] * 0x100_0000 + packet[5] * 0x1_0000 + packet[6]
        * 0x100 + packet[7]
}

/// A slot of a batch carries the payload under its number to the destination, and asks for
/// nothing else.
pub open spec fn carries_number<B: PacketBuffer>(
    slot: TxSlot<UdpTransmit<B>>,
    payload: Seq<u8>,
    number: int,
    destination: SocketAddr,
) -> bool {
    &&& slot matches TxSlot::Ready(tx)
    &&& tx.destination == destination
    &&& tx.source_ip is None && tx.source_port is None && tx.ecn is None
        && tx.gso_segment_size is None
    &&& tx.packet.bytes().len() == payload.len()
    &&& forall|i: int|
        8 <= i < payload.len() ==> #[trigger] tx.packet.bytes()[i] == payload[i]
    &&& payload.len() >= 8 ==> sequence_number(tx.packet.bytes()) == number
}

/// A batch carries its payload once per buffer, under consecutive numbers, to the
/// destination. It fails only for a payload that does not fit into a buffer.
pub proof fn law_batches_are_numbered_in_order<B: PacketBufferMut>(
    buffers: Vec<B>,
    destination: SocketAddr,
    r: Result<Vec<TxSlot<UdpTransmit<B::Frozen>>>, BufferAccessError>,
)
    ensures
        forall|payload: &mut Vec<u8>, sequence: &mut u64| #[trigger]
            call_ensures(
                sequenced_batch::<B>,
                (buffers, payload, sequence, destination),
                r,
            ) && *sequence + buffers@.len() <= u64::MAX ==> {
                &&& r matches Ok(slots) ==> {
                    &&& slots@.len() == buffers@.len()
                    &&& *final(sequence) == *sequence + buffers@.len()
                    &&& forall|k: int|
                        0 <= k < slots@.len() ==> carries_number(
                            #[trigger] slots@[k],
                            payload@,
                            *sequence + k,
                            destination,
                        )
                }
                &&& r is Err ==> exists|k: int|
                    0 <= k < buffers@.len() && (#[trigger] buffers@[k]).tailroom_spec()
                        < payload@.len()
            },
{
    assert forall|payload: &mut Vec<u8>, sequence: &mut u64| #[trigger]
        call_ensures(sequenced_batch::<B>, (buffers, payload, sequence, destination), r)
            && *sequence + buffers@.len() <= u64::MAX implies {
        &&& r matches Ok(slots) ==> {
            &&& slots@.len() == buffers@.len()
            &&& *final(sequence) == *sequence + buffers@.len()
            &&& forall|k: int|
                0 <= k < slots@.len() ==> carries_number(
                    #[trigger] slots@[k],
                    payload@,
                    *sequence + k,
                    destination,
                )
        }
        &&& r is Err ==> exists|k: int|
            0 <= k < buffers@.len() && (#[trigger] buffers@[k]).tailroom_spec() < payload@.len()
    } by {
        if let Ok(slots) = r {
            lemma_sequenced_slots(slots@, payload@, *sequence, destination);
        }
    }
}

proof fn lemma_sequenced_slots<B: PacketBuffer>(
    slots: Seq<TxSlot<UdpTransmit<B>>>,
    payload: Seq<u8>,
    first: u64,
    destination: SocketAddr,
)
    requires
        is_sequenced_batch(slots, payload, first, destination),
        first + slots.len() <= u64::MAX,
    ensures
        forall|k: int|
            0 <= k < slots.len() ==> carries_number(
                #[trigger] slots[k],
                payload,
                first + k,
                destination,
            ),
{
    assert forall|k: int| 0 <= k < slots.len() implies carries_number(
        #[trigger] slots[k],
        payload,
        first + k,
        destination,
    ) by {
        if payload.len() >= 8 {
            law_sequence_round_trip(payload, sequence_after(first, k));
        }
    }
}

/// A batch that is sent is of at most 128 packets, as many as the socket gave buffers for,
/// under consecutive numbers. The numbers go on behind what the socket took, and finished
/// sends are reclaimed.
pub proof fn law_sent_batches_are_numbered_in_order<S: UdpSocket>(
    destination: SocketAddr,
    accepted: usize,
    completed: usize,
)
    ensures
        forall|socket: &mut S, payload: &mut Vec<u8>, sequence: &mut u64|
            #![trigger call_ensures(
                send_packet_batch::<S>,
                (socket, destination, payload, sequence),
                Ok::<(usize, usize), BlastError>((accepted, completed)),
            )]
            call_ensures(
                send_packet_batch::<S>,
                (socket, destination, payload, sequence),
                Ok::<(usize, usize), BlastError>((accepted, completed)),
            ) ==> {
                &&& *sequence + accepted <= u64::MAX ==> *final(sequence) == *sequence + accepted
                &&& exists|
                    allocated: S,
                    sent: S,
                    fresh: Seq<UdpTxBufferMut<S>>,
                    slots: Seq<TxSlot<UdpTransmit<UdpTxBuffer<S>>>>,
                |
                    {
                        &&& #[trigger] S::may_allocate(
                            *socket,
                            allocated,
                            128,
                            fresh,
                            Ok::<usize, Error>(fresh.len() as usize),
                        )
                        &&& slots.len() == fresh.len()
                        &&& *sequence + slots.len() <= u64::MAX ==> forall|k: int|
                            0 <= k < slots.len() ==> carries_number(
                                #[trigger] slots[k],
                                payload@,
                                *sequence + k,
                                destination,
                            )
                        &&& fresh.len() == 0 ==> accepted == 0 && sent == allocated
                        &&& fresh.len() > 0 ==> S::may_send(
                            allocated,
                            sent,
                            slots,
                            Ok::<usize, SendError>(accepted),
                        )
                        &&& #[trigger] S::may_reclaim(
                            sent,
                            *final(socket),
                            Ok::<usize, Error>(completed),
                        )
                        &&& #[trigger] is_sequenced_batch(slots, payload@, *sequence, destination)
                    }
            },
{
    assert forall|socket: &mut S, payload: &mut Vec<u8>, sequence: &mut u64|
        #![trigger call_ensures(
            send_packet_batch::<S>,
            (socket, destination, payload, sequence),
            Ok::<(usize, usize), BlastError>((accepted, completed)),
        )]
        call_ensures(
            send_packet_batch::<S>,
            (socket, destination, payload, sequence),
            Ok::<(usize, usize), BlastError>((accepted, completed)),
        ) implies {
        &&& *sequence + accepted <= u64::MAX ==> *final(sequence) == *sequence + accepted
        &&& exists|
            allocated: S,
            sent: S,
            fresh: Seq<UdpTxBufferMut<S>>,
            slots: Seq<TxSlot<UdpTransmit<UdpTxBuffer<S>>>>,
        |
            {
                &&& #[trigger] S::may_allocate(
                    *socket,
                    allocated,
                    128,
                    fresh,
                    Ok::<usize, Error>(fresh.len() as usize),
                )
                &&& slots.len() == fresh.len()
                &&& *sequence + slots.len() <= u64::MAX ==> forall|k: int|
                    0 <= k < slots.len() ==> carries_number(
                        #[trigger] slots[k],
                        payload@,
                        *sequence + k,
                        destination,
                    )
                &&& fresh.len() == 0 ==> accepted == 0 && sent == allocated
                &&& fresh.len() > 0 ==> S::may_send(
                    allocated,
                    sent,
                    slots,
                    Ok::<usize, SendError>(accepted),
                )
                &&& #[trigger] S::may_reclaim(sent, *final(socket), Ok::<usize, Error>(completed))
                &&& #[trigger] is_sequenced_batch(slots, payload@, *sequence, destination)
            }
    } by {
        let sent = choose|sent: S|
            {
                &&& #[trigger] batch_accepted(
                    *socket,
                    sent,
                    payload@,
                    *sequence,
                    destination,
                    accepted,
                )
                &&& S::may_reclaim(sent, *final(socket), Ok::<usize, Error>(completed))
            };
        let (allocated, fresh, slots) = choose|
            allocated: S,
            fresh: Seq<UdpTxBufferMut<S>>,
            slots: Seq<TxSlot<UdpTransmit<UdpTxBuffer<S>>>>,
        |
            {
                &&& #[trigger] batch_offered(
                    *socket,
                    allocated,
                    fresh,
                    slots,
                    payload@,
                    *sequence,
                    destination,
                )
                &&& if fresh.len() == 0 {
                    accepted == 0 && sent == allocated
                } else {
                    S::may_send(allocated, sent, slots, Ok::<usize, SendError>(accepted))
                }
            };
        if *sequence + slots.len() <= u64::MAX {
            lemma_sequenced_slots(slots, payload@, *sequence, destination);
        }
        assert(S::may_reclaim(sent, *final(socket), Ok::<usize, Error>(completed)));
    }
}

/// The account keeps what is in flight and what is done: packets that are accepted are in
/// flight until they complete, and what completes is published in steps of at least 128, or
/// when that is forced.
pub proof fn law_accounts_balance(accepted: usize, completed: usize, force: bool, nothing: bool)
    ensures
        forall|account: &mut BlastAccount| #[trigger]
            call_ensures(BlastAccount::record, (account, accepted, completed), ())
                && account.in_flight + accepted <= u64::MAX && account.pending_completed + completed
                <= u64::MAX && account.published + account.pending_completed + completed
                <= u64::MAX && completed <= account.in_flight + accepted ==> {
                &&& final(account).in_flight + completed == account.in_flight + accepted
                &&& final(account).published + final(account).pending_completed
                    == account.published + account.pending_completed + completed
                &&& completed > 0 ==> final(account).pending_completed < 128
                &&& final(account).published != account.published
                    ==> final(account).pending_completed == 0 && account.pending_completed
                    + completed >= 128
            },
        forall|account: &mut BlastAccount| #[trigger]
            call_ensures(BlastAccount::record_drain, (account, completed), nothing)
                && account.pending_completed + completed <= u64::MAX ==> {
                &&& nothing <==> completed == 0
                &&& completed <= account.in_flight ==> final(account).in_flight + completed
                    == account.in_flight
                &&& completed > account.in_flight ==> final(account).in_flight == 0
                &&& final(account).pending_completed == account.pending_completed + completed
                &&& final(account).published == account.published
            },
        forall|account: &mut BlastAccount| #[trigger]
            call_ensures(BlastAccount::flush_blast_completions, (account, force), ())
                && account.published + account.pending_completed <= u64::MAX ==> {
                &&& final(account).in_flight == account.in_flight
                &&& final(account).published + final(account).pending_completed
                    == account.published + account.pending_completed
                &&& force || account.pending_completed >= 128 ==> final(account).pending_completed
                    == 0
                &&& !force && account.pending_completed < 128 ==> final(account).published
                    == account.published
            },
{
}

/// Draining goes on while anything is in flight and the deadline has not come.
pub proof fn law_draining_ends_at_the_deadline(
    account: &BlastAccount,
    now: TimeSpan,
    deadline: TimeSpan,
    r: bool,
)
    requires
        call_ensures(BlastAccount::keeps_draining, (account, now, deadline), r),
    ensures
        account.in_flight == 0 ==> !r,
        now@ >= deadline@ ==> !r,
        account.in_flight > 0 && now@ < deadline@ ==> r,
{
}

/// The sockets take turns, one pass each, and after every 256th pass the worker looks
/// whether it has to stop. A pass that fails names its socket and leaves the others alone.
pub proof fn law_sockets_send_in_turn<S: UdpSocket>(
    destination: SocketAddr,
    r: Result<bool, (usize, BlastError)>,
)
    ensures
        forall|worker: &mut BlastWorker, sockets: &mut [S], payload: &mut Vec<u8>|
            #![trigger call_ensures(
                BlastWorker::send_pass::<S>,
                (worker, sockets, destination, payload),
                r,
            )]
            call_ensures(
                BlastWorker::send_pass::<S>,
                (worker, sockets, destination, payload),
                r,
            ) && worker.next_socket < sockets@.len() && worker.passes < u32::MAX ==> {
                &&& forall|i: int|
                    0 <= i < sockets@.len() && i != worker.next_socket
                        ==> #[trigger] final(sockets)@[i] == sockets@[i]
                &&& r is Ok ==> {
                    &&& worker.next_socket + 1 < sockets@.len() ==> final(worker).next_socket
                        == worker.next_socket + 1
                    &&& worker.next_socket + 1 == sockets@.len() ==> final(worker).next_socket == 0
                    &&& final(worker).passes == worker.passes + 1
                }
                &&& r matches Ok(look) ==> (look <==> (worker.passes + 1) % 256 == 0)
                &&& r matches Err((index, error)) ==> {
                    &&& index == worker.next_socket
                    &&& final(worker).next_socket == worker.next_socket
                    &&& final(worker).account == worker.account
                }
            },
{
    assert forall|worker: &mut BlastWorker, sockets: &mut [S], payload: &mut Vec<u8>|
        #![trigger call_ensures(
            BlastWorker::send_pass::<S>,
            (worker, sockets, destination, payload),
            r,
        )]
        call_ensures(
            BlastWorker::send_pass::<S>,
            (worker, sockets, destination, payload),
            r,
        ) && worker.next_socket < sockets@.len() && worker.passes < u32::MAX implies {
            &&& forall|i: int|
                0 <= i < sockets@.len() && i != worker.next_socket
                    ==> #[trigger] final(sockets)@[i] == sockets@[i]
            &&& r is Ok ==> {
                &&& worker.next_socket + 1 < sockets@.len() ==> final(worker).next_socket
                    == worker.next_socket + 1
                &&& worker.next_socket + 1 == sockets@.len() ==> final(worker).next_socket == 0
                &&& final(worker).passes == worker.passes + 1
            }
            &&& r matches Ok(look) ==> (look <==> (worker.passes + 1) % 256 == 0)
            &&& r matches Err((index, error)) ==> {
                &&& index == worker.next_socket
                &&& final(worker).next_socket == worker.next_socket
                &&& final(worker).account == worker.account
            }
        } by {
        let turn = worker.next_socket as int + 1;
        let count = sockets@.len() as int;
        if turn < count {
            vstd::arithmetic::div_mod::lemma_small_mod(turn as nat, count as nat);
        } else {
            vstd::arithmetic::div_mod::lemma_mod_self_0(count);
        }
    }
}

/// A new worker starts with the first socket and the number zero, and has done nothing.
pub proof fn law_new_workers_start_at_zero(worker: BlastWorker, account: BlastAccount)
    requires
        call_ensures(BlastWorker::new, (), worker),
        call_ensures(BlastAccount::new, (), account),
    ensures
        worker.next_socket == 0 && worker.sequence == 0 && worker.passes == 0,
        worker.account.in_flight == 0 && worker.account.pending_completed == 0
            && worker.account.published == 0,
        account.in_flight == 0 && account.pending_completed == 0 && account.published == 0,
{
}

/// The workers start when the last of them is ready, and not before. A worker that fails, a
/// shutdown while waiting, and a worker that is gone without being ready end the wait.
pub proof fn law_workers_start_together(event: ReadyEvent, r: ReadyStep)
    ensures
        forall|barrier: &mut ReadyBarrier| #[trigger]
            call_ensures(ReadyBarrier::on_event, (barrier, event), r) ==> {
                &&& final(barrier).expected == barrier.expected
                &&& event is Ready ==> final(barrier).ready == barrier.ready + 1
                &&& !(event is Ready) ==> final(barrier).ready == barrier.ready
                &&& r is Start <==> event is Ready && barrier.ready + 1 == barrier.expected
                &&& event is WorkerFailed ==> r is FailWithWorkerError
                &&& event == ReadyEvent::Timeout(true) ==> r is FailWithShutdown
                &&& event == ReadyEvent::Timeout(false) ==> r is Wait
                &&& event == ReadyEvent::Disconnected(true) ==> r is FailWithWorkerError
                &&& event == ReadyEvent::Disconnected(false) ==> r == ReadyStep::FailWithMissing(
                    barrier.ready,
                )
            },
{
}

/// Each received packet is answered to where it came from, unchanged and in order.
pub proof fn law_replies_go_back_to_their_source<B: PacketBufferMut>(
    received: Vec<UdpReceive<B, UdpRecvMeta>>,
    r: Vec<TxSlot<UdpTransmit<B::Frozen>>>,
    i: int,
)
    requires
        call_ensures(reply_slots::<B>, (received,), r),
        0 <= i < received@.len(),
    ensures
        r@.len() == received@.len(),
        r@[i] matches TxSlot::Ready(tx) && tx.packet.bytes() == received@[i].packet.bytes()
            && tx.destination == received@[i].meta.source && tx.source_ip is None
            && tx.source_port is None && tx.ecn is None && tx.gso_segment_size is None,
{
    assert(sends_bytes(r@[i], received@[i].packet.bytes(), received@[i].meta.source));
}

/// A packet counts where it parses as a UDP packet for the port. What is counted adds up
/// packet by packet.
pub proof fn law_matching_packets_are_counted(
    packets: Seq<Seq<u8>>,
    packet: &[u8],
    port: u16,
    parsed: Option<Ipv4UdpPacket>,
)
    requires
        call_ensures(parse_ipv4_udp, (packet,), parsed),
    ensures
        is_for_port(packet@, port) <==> (parsed matches Some(fields) && fields.destination_port
            == port),
        matching_count(Seq::<Seq<u8>>::empty(), port) == 0,
        matching_count(packets.push(packet@), port) == matching_count(packets, port) + (if parsed
            is Some && parsed->0.destination_port == port {
            1int
        } else {
            0
        }),
{
    assert(packets.push(packet@).drop_last() =~= packets);
}

/// Every received packet is counted once: as one for the port, or as dropped.
pub proof fn law_received_packets_are_counted_once<B: PacketBuffer, M>(
    received: &Vec<IpPacketReceive<B, M>>,
    bind_port: u16,
    r: u64,
)
    ensures
        forall|total: &mut u64, dropped: &mut u64| #[trigger]
            call_ensures(count_received::<B, M>, (received, bind_port, total, dropped), r) && *total
                + received@.len() <= u64::MAX && *dropped + received@.len() <= u64::MAX ==> {
                &&& r <= received@.len()
                &&& *final(total) == *total + r
                &&& *final(dropped) == *dropped + received@.len() - r
            },
{
    assert forall|total: &mut u64, dropped: &mut u64| #[trigger]
        call_ensures(count_received::<B, M>, (received, bind_port, total, dropped), r) && *total
            + received@.len() <= u64::MAX && *dropped + received@.len() <= u64::MAX implies {
        &&& r <= received@.len()
        &&& *final(total) == *total + r
        &&& *final(dropped) == *dropped + received@.len() - r
    } by {
        let seen = choose|seen: Seq<Seq<u8>>|
            {
                &&& seen.len() == received@.len()
                &&& forall|i: int|
                    0 <= i < seen.len() ==> shows(received@[i].packet, #[trigger] seen[i])
                &&& r == #[trigger] matching_count(seen, bind_port)
                &&& *final(total) == bumped(*total, matching_count(seen, bind_port))
                &&& *final(dropped) == bumped(
                    *dropped,
                    (seen.len() - matching_count(seen, bind_port)) as nat,
                )
            };
        lemma_matching_count_bound(seen, bind_port);
        law_counters_count(*total, matching_count(seen, bind_port));
        law_counters_count(*dropped, (seen.len() - matching_count(seen, bind_port)) as nat);
    }
}

proof fn lemma_matching_count_bound(packets: Seq<Seq<u8>>, port: u16)
    ensures
        matching_count(packets, port) <= packets.len(),
    decreases packets.len(),
{
    if packets.len() > 0 {
        lemma_matching_count_bound(packets.drop_last(), port);
    }
}

/// A packet is answered where it is whole and for the port: by the same payload, with the
/// endpoints exchanged, without what followed the packet, to where it came from.
pub proof fn law_answers_exchange_the_endpoints<B: PacketBufferMut>(
    packet: B,
    bytes: &[u8],
    parsed: Option<Ipv4UdpPacket>,
    bind_port: u16,
    r: Option<(B::Frozen, Ipv4Addr)>,
)
    requires
        bytes@ == packet.bytes(),
        call_ensures(parse_ipv4_udp, (bytes,), parsed),
        call_ensures(pong_packet::<B>, (packet, bind_port), r),
    ensures
        r is Some <==> packet.is_contiguous() && parsed is Some && parsed->0.destination_port
            == bind_port,
        r matches Some((answer, destination)) ==> {
            let sent = answer.bytes();
            let asked = packet.bytes();
            let header = (asked[0] % 16) * 4;
            &&& destination == parsed->0.source
            &&& sent.len() == parsed->0.total_len
            &&& forall|i: int| 0 <= i < 4 ==> #[trigger] sent[12 + i] == asked[16 + i]
            &&& forall|i: int| 0 <= i < 4 ==> #[trigger] sent[16 + i] == asked[12 + i]
            &&& sent[header as int] == asked[header + 2]
            &&& sent[header + 1] == asked[header + 3]
            &&& sent[header + 2] == asked[header as int]
            &&& sent[header + 3] == asked[header + 1]
            &&& forall|i: int|
                (0 <= i < 10 || 20 <= i < header || header + 8 <= i < sent.len())
                    ==> #[trigger] sent[i] == asked[i]
        },
{
    if let Some((answer, destination)) = r {
        let asked = packet.bytes();
        let total = header_fields(asked).total_len as int;
        let whole = asked.take(total);
        assert(is_ipv4_udp(asked));
        assert(total <= asked.len());
        assert(answer.bytes() == reflected(whole));
    }
}

/// What was answered is counted packet by packet.
pub proof fn law_answers_are_counted(fates: Seq<bool>, fate: bool)
    ensures
        true_count(Seq::<bool>::empty()) == 0,
        true_count(fates.push(fate)) == true_count(fates) + (if fate {
            1int
        } else {
            0
        }),
        true_count(fates) <= fates.len(),
{
    assert(fates.push(fate).drop_last() =~= fates);
    lemma_true_count_bound(fates);
}

proof fn lemma_true_count_bound(fates: Seq<bool>)
    ensures
        true_count(fates) <= fates.len(),
    decreases fates.len(),
{
    if fates.len() > 0 {
        lemma_true_count_bound(fates.drop_last());
    }
}

/// Every packet that was dealt with is counted once, as answered or as dropped, and without
/// an error all of them were dealt with.
pub proof fn law_answered_packets_are_counted_once<
    S: IpPacketSocket,
    F: Fn(Ipv4Addr) -> Option<S::Egress>,
>(
    received: Vec<IpPacketRxItem<S>>,
    egress: &F,
    bind_port: u16,
    notify: bool,
    delivered: u64,
) where S::RxBuffer: PacketBufferMut<Frozen = IpPacketTxBuffer<S>>
    ensures
        forall|socket: &mut S, total: &mut u64, dropped: &mut u64|
            #![trigger call_ensures(
                pong_received::<S, F>,
                (socket, received, egress, bind_port, notify, total, dropped),
                Ok::<u64, BlastError>(delivered),
            )]
            call_ensures(
                pong_received::<S, F>,
                (socket, received, egress, bind_port, notify, total, dropped),
                Ok::<u64, BlastError>(delivered),
            ) && *total + received@.len() <= u64::MAX && *dropped + received@.len() <= u64::MAX
                ==> {
                &&& delivered <= received@.len()
                &&& *final(total) == *total + delivered
                &&& *final(dropped) == *dropped + received@.len() - delivered
            },
{
    assert forall|socket: &mut S, total: &mut u64, dropped: &mut u64|
        #![trigger call_ensures(
            pong_received::<S, F>,
            (socket, received, egress, bind_port, notify, total, dropped),
            Ok::<u64, BlastError>(delivered),
        )]
        call_ensures(
            pong_received::<S, F>,
            (socket, received, egress, bind_port, notify, total, dropped),
            Ok::<u64, BlastError>(delivered),
        ) && *total + received@.len() <= u64::MAX && *dropped + received@.len()
            <= u64::MAX implies {
        &&& delivered <= received@.len()
        &&& *final(total) == *total + delivered
        &&& *final(dropped) == *dropped + received@.len() - delivered
    } by {
        let told = choose|told: Set<Notification<S>>| #[trigger]
            ponged::<S, F>(
                *socket,
                *final(socket),
                received@,
                *egress,
                bind_port,
                notify,
                told,
                (*total, *dropped),
                (*final(total), *final(dropped)),
                Ok::<u64, BlastError>(delivered),
            );
        let (fates, states) = choose|fates: Seq<bool>, states: Seq<S>|
            {
                &&& #[trigger] fates_hold::<S, F>(
                    received@,
                    fates,
                    states,
                    bind_port,
                    *egress,
                    notify,
                    told,
                )
                &&& states[0] == *socket
                &&& *final(total) == bumped(*total, true_count(fates))
                &&& *final(dropped) == bumped(*dropped, (fates.len() - true_count(fates)) as nat)
                &&& delivered == true_count(fates)
                &&& fates.len() == received@.len()
            };
        lemma_true_count_bound(fates);
        law_counters_count(*total, true_count(fates));
        law_counters_count(*dropped, (fates.len() - true_count(fates)) as nat);
    }
}

/// A run fails with its worker, stops for a shutdown, a finished worker or a limit, and goes
/// on otherwise.
pub proof fn law_supervisors_stop_for_a_reason(
    limit: RunLimit,
    count: u64,
    elapsed: TimeSpan,
    shutdown: bool,
    worker_finished: bool,
    worker_failed: bool,
    r: SupervisorStep,
)
    requires
        call_ensures(
            supervise,
            (limit, count, elapsed, shutdown, worker_finished, worker_failed),
            r,
        ),
    ensures
        r is Fail <==> worker_failed,
        !worker_failed && (shutdown || worker_finished) ==> r is Stop,
        limit.count matches Some(most) ==> (count >= most ==> !(r is Continue)),
        limit.duration matches Some(most) ==> (elapsed@ >= most@ ==> !(r is Continue)),
        r is Stop && !shutdown && !worker_finished ==> (limit.count matches Some(most) && count
            >= most) || (limit.duration matches Some(most) && elapsed@ >= most@),
{
}

/// A worker that is waiting for the start quits when it is told to stop, even where it is
/// told to start as well.
pub proof fn law_stopping_goes_before_starting(
    start: bool,
    stop: bool,
    shutdown: bool,
    r: StartStep,
)
    requires
        call_ensures(worker_start, (start, stop, shutdown), r),
    ensures
        r is Quit <==> stop || shutdown,
        r is Run <==> start && !stop && !shutdown,
        r is Wait <==> !start && !stop && !shutdown,
{
}

/// Serving a socket counts what it delivers. Where nothing was received, or receiving
/// failed, nothing is counted.
pub proof fn law_served_packets_are_counted<
    S: IpPacketSocket,
    F: Fn(Ipv4Addr) -> Option<S::Egress>,
>(mode: ListenMode, egress: &F, bind_port: u16, r: Result<Option<u64>, BlastError>) where
    S::RxBuffer: PacketBufferMut<Frozen = IpPacketTxBuffer<S>>,

    ensures
        forall|
            socket: &mut S,
            rx: &mut RecvBatch<IpPacketRxItem<S>>,
            total: &mut u64,
            dropped: &mut u64,
        |
            #![trigger call_ensures(
                serve_socket::<S, F>,
                (socket, rx, mode, egress, bind_port, total, dropped),
                r,
            )]
            call_ensures(
                serve_socket::<S, F>,
                (socket, rx, mode, egress, bind_port, total, dropped),
                r,
            ) ==> {
                &&& r == Ok::<Option<u64>, BlastError>(None) ==> *final(total) == *total
                    && *final(dropped) == *dropped
                &&& r matches Ok(Some(delivered)) ==> (*total + delivered <= u64::MAX
                    ==> *final(total) == *total + delivered)
            },
{
    assert forall|
        socket: &mut S,
        rx: &mut RecvBatch<IpPacketRxItem<S>>,
        total: &mut u64,
        dropped: &mut u64,
    |
        #![trigger call_ensures(
            serve_socket::<S, F>,
            (socket, rx, mode, egress, bind_port, total, dropped),
            r,
        )]
        call_ensures(
            serve_socket::<S, F>,
            (socket, rx, mode, egress, bind_port, total, dropped),
            r,
        ) implies {
        &&& r == Ok::<Option<u64>, BlastError>(None) ==> *final(total) == *total
            && *final(dropped) == *dropped
        &&& r matches Ok(Some(delivered)) ==> (*total + delivered <= u64::MAX ==> *final(total)
            == *total + delivered)
    } by {
        let told = choose|told: Set<Notification<S>>| #[trigger]
            served::<S, F>(
                *socket,
                *final(socket),
                mode,
                *egress,
                bind_port,
                told,
                (*total, *dropped),
                (*final(total), *final(dropped)),
                r,
            );
        assert(served::<S, F>(
            *socket,
            *final(socket),
            mode,
            *egress,
            bind_port,
            told,
            (*total, *dropped),
            (*final(total), *final(dropped)),
            r,
        ));
        if let Ok(Some(delivered)) = r {
            law_counters_count(*total, delivered as nat);
        }
    }
}

/// All sockets are served, in order, up to the first that fails, and it is progress where
/// any of them delivered a packet.
pub proof fn law_all_sockets_are_served<
    S: IpPacketSocket,
    F: Fn(Ipv4Addr) -> Option<S::Egress>,
>(mode: ListenMode, egress: &F, bind_port: u16, r: Result<bool, BlastError>) where
    S::RxBuffer: PacketBufferMut<Frozen = IpPacketTxBuffer<S>>,

    ensures
        forall|
            sockets: &mut [S],
            rx: &mut RecvBatch<IpPacketRxItem<S>>,
            total: &mut u64,
            dropped: &mut u64,
        |
            #![trigger call_ensures(
                serve_all::<S, F>,
                (sockets, rx, mode, egress, bind_port, total, dropped),
                r,
            )]
            call_ensures(
                serve_all::<S, F>,
                (sockets, rx, mode, egress, bind_port, total, dropped),
                r,
            ) ==> exists|results: Seq<Result<Option<u64>, BlastError>>|
                {
                    &&& r is Ok ==> results.len() == sockets@.len()
                    &&& r matches Err(error) ==> results.len() > 0 && results.last() == Err::<
                        Option<u64>,
                        BlastError,
                    >(error)
                    &&& r == Ok::<bool, BlastError>(true) ==> exists|i: int|
                        0 <= i < results.len() && ((#[trigger] results[i]) matches Ok(
                            Some(delivered),
                        ) && delivered > 0)
                    &&& r == Ok::<bool, BlastError>(false) ==> forall|i: int|
                        0 <= i < results.len() ==> ((#[trigger] results[i]) matches Ok(
                            Some(delivered),
                        ) ==> delivered == 0)
                    &&& forall|i: int|
                        0 <= i < results.len() - 1 ==> (#[trigger] results[i]) is Ok
                    &&& forall|i: int|
                        results.len() <= i < sockets@.len() ==> #[trigger] final(sockets)@[i]
                            == sockets@[i]
                },
{
    assert forall|
        sockets: &mut [S],
        rx: &mut RecvBatch<IpPacketRxItem<S>>,
        total: &mut u64,
        dropped: &mut u64,
    |
        #![trigger call_ensures(
            serve_all::<S, F>,
            (sockets, rx, mode, egress, bind_port, total, dropped),
            r,
        )]
        call_ensures(
            serve_all::<S, F>,
            (sockets, rx, mode, egress, bind_port, total, dropped),
            r,
        ) implies exists|results: Seq<Result<Option<u64>, BlastError>>|
        {
            &&& r is Ok ==> results.len() == sockets@.len()
            &&& r matches Err(error) ==> results.len() > 0 && results.last() == Err::<
                Option<u64>,
                BlastError,
            >(error)
            &&& r == Ok::<bool, BlastError>(true) ==> exists|i: int|
                0 <= i < results.len() && ((#[trigger] results[i]) matches Ok(Some(delivered))
                    && delivered > 0)
            &&& r == Ok::<bool, BlastError>(false) ==> forall|i: int|
                0 <= i < results.len() ==> ((#[trigger] results[i]) matches Ok(Some(delivered))
                    ==> delivered == 0)
            &&& forall|i: int| 0 <= i < results.len() - 1 ==> (#[trigger] results[i]) is Ok
            &&& forall|i: int|
                results.len() <= i < sockets@.len() ==> #[trigger] final(sockets)@[i]
                    == sockets@[i]
        } by {
        let (tolds, counts, results) = choose|
            tolds: Seq<Set<Notification<S>>>,
            counts: Seq<(u64, u64)>,
            results: Seq<Result<Option<u64>, BlastError>>,
        |
            {
                &&& #[trigger] all_served::<S, F>(
                    sockets@,
                    final(sockets)@,
                    mode,
                    *egress,
                    bind_port,
                    tolds,
                    counts,
                    results,
                )
                &&& match r {
                    Ok(progressed) => {
                        &&& results.len() == sockets@.len()
                        &&& forall|i: int|
                            0 <= i < results.len() ==> (#[trigger] results[i]) is Ok
                        &&& progressed == any_delivered(results)
                    },
                    Err(error) => {
                        &&& results.len() > 0
                        &&& results.last() == Err::<Option<u64>, BlastError>(error)
                        &&& forall|i: int|
                            0 <= i < results.len() - 1 ==> (#[trigger] results[i]) is Ok
                    },
                }
            };
        assert(results.len() <= sockets@.len());
    }
}

/// A batch that the socket refuses has used up its numbers. One whose payload does not fit
/// into a buffer is not sent at all.
pub proof fn law_refused_batches_use_up_their_numbers<S: UdpSocket>(
    destination: SocketAddr,
    error: BlastError,
)
    ensures
        forall|socket: &mut S, payload: &mut Vec<u8>, sequence: &mut u64|
            #![trigger call_ensures(
                send_packet_batch::<S>,
                (socket, destination, payload, sequence),
                Err::<(usize, usize), BlastError>(error),
            )]
            call_ensures(
                send_packet_batch::<S>,
                (socket, destination, payload, sequence),
                Err::<(usize, usize), BlastError>(error),
            ) ==> match error {
                BlastError::Send(refused) => exists|
                    allocated: S,
                    fresh: Seq<UdpTxBufferMut<S>>,
                    slots: Seq<TxSlot<UdpTransmit<UdpTxBuffer<S>>>>,
                |
                    {
                        &&& #[trigger] S::may_allocate(
                            *socket,
                            allocated,
                            128,
                            fresh,
                            Ok::<usize, Error>(fresh.len() as usize),
                        )
                        &&& fresh.len() > 0 && slots.len() == fresh.len()
                        &&& #[trigger] S::may_send(
                            allocated,
                            *final(socket),
                            slots,
                            Err::<usize, SendError>(refused),
                        )
                        &&& *sequence + slots.len() <= u64::MAX ==> *final(sequence) == *sequence
                            + slots.len() && forall|k: int|
                            0 <= k < slots.len() ==> carries_number(
                                #[trigger] slots[k],
                                payload@,
                                *sequence + k,
                                destination,
                            )
                    },
                BlastError::Buffer(refused) => exists|fresh: Seq<UdpTxBufferMut<S>>, k: int|
                    {
                        &&& #[trigger] S::may_allocate(
                            *socket,
                            *final(socket),
                            128,
                            fresh,
                            Ok::<usize, Error>(fresh.len() as usize),
                        )
                        &&& 0 <= k < fresh.len()
                        &&& (#[trigger] fresh[k]).tailroom_spec() < payload@.len()
                        &&& refused matches BufferAccessError::InsufficientTailroom {
                            available,
                            requested,
                        } && available == fresh[k].tailroom_spec() as usize && requested
                            == payload@.len() as usize
                    },
                BlastError::Socket(_) => true,
            },
{
    assert forall|socket: &mut S, payload: &mut Vec<u8>, sequence: &mut u64|
        #![trigger call_ensures(
            send_packet_batch::<S>,
            (socket, destination, payload, sequence),
            Err::<(usize, usize), BlastError>(error),
        )]
        call_ensures(
            send_packet_batch::<S>,
            (socket, destination, payload, sequence),
            Err::<(usize, usize), BlastError>(error),
        ) && error is Send implies exists|
        allocated: S,
        fresh: Seq<UdpTxBufferMut<S>>,
        slots: Seq<TxSlot<UdpTransmit<UdpTxBuffer<S>>>>,
    |
        {
            &&& #[trigger] S::may_allocate(
                *socket,
                allocated,
                128,
                fresh,
                Ok::<usize, Error>(fresh.len() as usize),
            )
            &&& fresh.len() > 0 && slots.len() == fresh.len()
            &&& #[trigger] S::may_send(
                allocated,
                *final(socket),
                slots,
                Err::<usize, SendError>(error->Send_0),
            )
            &&& *sequence + slots.len() <= u64::MAX ==> *final(sequence) == *sequence + slots.len()
                && forall|k: int|
                0 <= k < slots.len() ==> carries_number(
                    #[trigger] slots[k],
                    payload@,
                    *sequence + k,
                    destination,
                )
        } by {
        let refused = error->Send_0;
        let (allocated, fresh, slots) = choose|
            allocated: S,
            fresh: Seq<UdpTxBufferMut<S>>,
            slots: Seq<TxSlot<UdpTransmit<UdpTxBuffer<S>>>>,
        |
            {
                &&& #[trigger] batch_offered(
                    *socket,
                    allocated,
                    fresh,
                    slots,
                    payload@,
                    *sequence,
                    destination,
                )
                &&& fresh.len() > 0
                &&& S::may_send(
                    allocated,
                    *final(socket),
                    slots,
                    Err::<usize, SendError>(refused),
                )
                &&& *final(sequence) == sequence_after(*sequence, fresh.len() as int)
            };
        if *sequence + slots.len() <= u64::MAX {
            lemma_sequenced_slots(slots, payload@, *sequence, destination);
        }
        assert(S::may_send(
            allocated,
            *final(socket),
            slots,
            Err::<usize, SendError>(refused),
        ));
    }
}

} // verus!
