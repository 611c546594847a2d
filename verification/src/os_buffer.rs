//! Slab-backed packet buffers for the OS UDP backend.
//!
//! A pool issues at most a fixed number of buffers. Buffers that its owner
//! gives back go to a local free list; buffers that come back from elsewhere
//! pass through a bounded reclaim queue, which the pool empties before it
//! allocates more memory.

use vstd::prelude::*;

use crate::buffer::{
    lemma_joined_single, BufferAccessError, BufferLayout, BufferPool, LayoutFacts,
    OwnedPacketBuffer, PacketBuffer, PacketBufferMut, ReserveError,
};
use crate::packet::PacketMemory;
use crate::queue::Queue;

verus! {

/// Number of buffers that a pool allocates at once.
pub const SLAB_SIZE: usize = 64;

/// Number of buffers that a pool issues unless told otherwise.
pub const DEFAULT_POOL_MAX_BUFFERS: usize = 65536;

/// Largest number of buffers that a pool can be asked to issue.
pub open spec fn max_buffers_limit() -> int {
    isize::MAX as int / 16
}

/// Immutable OS UDP packet buffer.
#[derive(Debug)]
pub struct OsPacketBuf {
    inner: PacketMemory,
}

impl OsPacketBuf {
    /// Returns the packet bytes as a contiguous slice.
    #[must_use]
    pub fn as_slice(&self) -> (r: &[u8])
        requires
            self.wf(),
        ensures
            r@ == self.bytes(),
    {
        self.inner.as_slice()
    }
}

impl PacketBuffer for OsPacketBuf {
    closed spec fn wf(&self) -> bool {
        self.inner.wf()
    }

    closed spec fn bytes(&self) -> Seq<u8> {
        self.inner.bytes()
    }

    closed spec fn headroom_spec(&self) -> nat {
        self.inner.headroom_spec()
    }

    closed spec fn tailroom_spec(&self) -> nat {
        self.inner.tailroom_spec()
    }

    closed spec fn layout_spec(&self) -> BufferLayout {
        self.inner.layout_spec()
    }

    open spec fn is_contiguous(&self) -> bool {
        true
    }

    fn len(&self) -> usize {
        self.inner.len()
    }

    fn headroom(&self) -> usize {
        self.inner.headroom()
    }

    fn tailroom(&self) -> usize {
        self.inner.tailroom()
    }

    fn layout(&self) -> &BufferLayout {
        self.inner.layout()
    }

    fn segments(&self) -> (r: Vec<&[u8]>)
        ensures
            r@.len() == (if self.bytes().len() == 0 {
                0int
            } else {
                1
            }),
    {
        let mut segments: Vec<&[u8]> = Vec::new();
        if self.inner.len() > 0 {
            segments.push(self.inner.as_slice());
        }
        proof {
            lemma_joined_single(segments@, self.inner.bytes());
        }
        segments
    }

    fn first_segment(&self) -> (r: Option<&[u8]>)
        ensures
            r is Some <==> self.bytes().len() > 0,
            r matches Some(segment) ==> segment@ == self.bytes(),
    {
        if self.inner.len() > 0 {
            Some(self.inner.as_slice())
        } else {
            None
        }
    }

    fn contiguous(&self) -> (r: Option<&[u8]>)
        ensures
            r is Some,
    {
        Some(self.inner.as_slice())
    }

    fn read_at_exact(&self, offset: usize, dst: &mut [u8]) -> Result<(), BufferAccessError> {
        self.inner.read_at_exact(offset, dst)
    }
}

impl OwnedPacketBuffer for OsPacketBuf {
    type Mutable = OsPacketBufMut;

    fn into_mut(self) -> OsPacketBufMut {
        OsPacketBufMut { inner: self.inner }
    }
}

/// Mutable OS UDP packet buffer.
#[derive(Debug)]
pub struct OsPacketBufMut {
    inner: PacketMemory,
}

impl OsPacketBufMut {
    /// The storage is exactly one chunk of the layout, as pools issue it.
    pub closed spec fn is_chunk(&self) -> bool {
        self.inner.storage_spec().len() == self.inner.layout_spec()@.chunk_size
    }

    /// The bytes from the data offset on that a receive may fill.
    pub closed spec fn receive_area(&self) -> Seq<u8> {
        self.inner.data_area()
    }

    /// Returns the current packet bytes as a contiguous slice.
    #[must_use]
    pub fn as_slice(&self) -> (r: &[u8])
        requires
            self.wf(),
        ensures
            r@ == self.bytes(),
    {
        self.inner.as_slice()
    }

    /// Returns the current packet bytes as a mutable contiguous slice.
    #[must_use]
    pub fn as_mut_slice(&mut self) -> (r: &mut [u8])
        requires
            old(self).wf(),
        ensures
            r@ == old(self).bytes(),
            final(r)@.len() == r@.len() ==> {
                &&& final(self).wf()
                &&& final(self).bytes() == final(r)@
                &&& final(self).headroom_spec() == old(self).headroom_spec()
                &&& final(self).tailroom_spec() == old(self).tailroom_spec()
                &&& final(self).layout_spec() == old(self).layout_spec()
            },
    {
        self.inner.as_mut_slice()
    }

    /// Returns the number of bytes that a receive may fill.
    #[must_use]
    pub fn data_capacity(&self) -> (r: usize)
        ensures
            r == self.layout_spec()@.payload_capacity,
    {
        self.inner.layout().payload_capacity()
    }

    /// Returns the bytes that a receive may fill.
    #[must_use]
    pub fn data_mut(&mut self) -> (r: &mut [u8])
        requires
            old(self).wf(),
            old(self).is_chunk(),
        ensures
            r@ == old(self).receive_area(),
            final(r)@.len() == r@.len() ==> {
                &&& final(self).wf()
                &&& final(self).is_chunk()
                &&& final(self).receive_area() == final(r)@
                &&& final(self).layout_spec() == old(self).layout_spec()
            },
    {
        self.inner.data_area_mut()
    }

    /// Declares the first `len` bytes of the receive area to be the packet.
    pub fn set_received_len(&mut self, len: usize) -> (r: Result<(), BufferAccessError>)
        requires
            old(self).wf(),
            old(self).is_chunk(),
        ensures
            final(self).wf(),
            final(self).is_chunk(),
            final(self).layout_spec() == old(self).layout_spec(),
            if len <= old(self).layout_spec()@.payload_capacity {
                &&& r == Ok::<(), BufferAccessError>(())
                &&& final(self).bytes() == old(self).receive_area().take(len as int)
            } else {
                &&& r == Err::<(), BufferAccessError>(
                    BufferAccessError::InsufficientTailroom {
                        available: old(self).layout_spec()@.payload_capacity as usize,
                        requested: len,
                    },
                )
                &&& *final(self) == *old(self)
            },
    {
        let result = self.inner.set_received_len(len);
        proof {
            if result is Ok {
                assert(self.bytes() =~= old(self).receive_area().take(len as int));
            }
        }
        result
    }
}

impl PacketBuffer for OsPacketBufMut {
    closed spec fn wf(&self) -> bool {
        self.inner.wf()
    }

    closed spec fn bytes(&self) -> Seq<u8> {
        self.inner.bytes()
    }

    closed spec fn headroom_spec(&self) -> nat {
        self.inner.headroom_spec()
    }

    closed spec fn tailroom_spec(&self) -> nat {
        self.inner.tailroom_spec()
    }

    closed spec fn layout_spec(&self) -> BufferLayout {
        self.inner.layout_spec()
    }

    open spec fn is_contiguous(&self) -> bool {
        true
    }

    fn len(&self) -> usize {
        self.inner.len()
    }

    fn headroom(&self) -> usize {
        self.inner.headroom()
    }

    fn tailroom(&self) -> usize {
        self.inner.tailroom()
    }

    fn layout(&self) -> &BufferLayout {
        self.inner.layout()
    }

    fn segments(&self) -> (r: Vec<&[u8]>)
        ensures
            r@.len() == (if self.bytes().len() == 0 {
                0int
            } else {
                1
            }),
    {
        let mut segments: Vec<&[u8]> = Vec::new();
        if self.inner.len() > 0 {
            segments.push(self.inner.as_slice());
        }
        proof {
            lemma_joined_single(segments@, self.inner.bytes());
        }
        segments
    }

    fn first_segment(&self) -> (r: Option<&[u8]>)
        ensures
            r is Some <==> self.bytes().len() > 0,
            r matches Some(segment) ==> segment@ == self.bytes(),
    {
        if self.inner.len() > 0 {
            Some(self.inner.as_slice())
        } else {
            None
        }
    }

    fn contiguous(&self) -> (r: Option<&[u8]>)
        ensures
            r is Some,
    {
        Some(self.inner.as_slice())
    }

    fn read_at_exact(&self, offset: usize, dst: &mut [u8]) -> Result<(), BufferAccessError> {
        self.inner.read_at_exact(offset, dst)
    }
}

impl PacketBufferMut for OsPacketBufMut {
    type Frozen = OsPacketBuf;

    fn first_segment_mut(&mut self) -> (r: Option<&mut [u8]>)
        ensures
            r is Some <==> old(self).bytes().len() > 0,
            r matches Some(segment) ==> segment@ == old(self).bytes(),
    {
        if self.inner.len() > 0 {
            Some(self.inner.as_mut_slice())
        } else {
            None
        }
    }

    fn contiguous_mut(&mut self) -> (r: Option<&mut [u8]>)
        ensures
            r is Some,
    {
        Some(self.inner.as_mut_slice())
    }

    fn prepend(&mut self, bytes: &[u8]) -> Result<(), ReserveError> {
        self.inner.prepend(bytes)
    }

    fn extend_from_slice(&mut self, bytes: &[u8]) -> Result<(), BufferAccessError> {
        self.inner.extend_from_slice(bytes)
    }

    fn trim_prefix(&mut self, len: usize) -> Result<(), BufferAccessError> {
        self.inner.trim_prefix(len)
    }

    fn trim_suffix(&mut self, len: usize) -> Result<(), BufferAccessError> {
        self.inner.trim_suffix(len)
    }

    fn freeze(self) -> OsPacketBuf {
        OsPacketBuf { inner: self.inner }
    }
}

/// Slab-backed buffer pool used by OS UDP sockets.
pub struct OsBufferPool {
    layout: BufferLayout,
    free: Vec<Vec<u8>>,
    remote: Queue<Vec<u8>>,
    allocated: usize,
    max_buffers: usize,
}

impl OsBufferPool {
    /// The largest number of buffers that may be out at one time.
    pub closed spec fn limit(&self) -> nat {
        self.max_buffers as nat
    }

    /// Buffers whose memory has been allocated, out or not.
    pub closed spec fn allocated_spec(&self) -> nat {
        self.allocated as nat
    }

    /// Buffers on the local free list.
    pub closed spec fn free_count(&self) -> nat {
        self.free@.len()
    }

    /// Buffers in the reclaim queue.
    pub closed spec fn remote_count(&self) -> nat {
        self.remote@.len()
    }

    /// Buffers that are out: issued and not yet given back.
    pub open spec fn in_flight(&self) -> int {
        self.allocated_spec() - self.free_count() - self.remote_count()
    }

    closed spec fn inv(&self) -> bool {
        &&& self.layout.wf()
        &&& self.layout@.max_segments == 1
        &&& self.remote.wf()
        &&& self.max_buffers <= max_buffers_limit()
        &&& self.remote.spec_capacity() == (if self.max_buffers == 0 {
            1
        } else {
            self.max_buffers as nat
        })
        &&& self.free@.len() + self.remote@.len() <= self.allocated
        &&& self.allocated <= self.max_buffers
    }

    /// Creates a slab-backed pool for `layout` with the default pool limit.
    #[must_use]
    pub fn new(layout: BufferLayout) -> (r: Self)
        requires
            layout.wf(),
        ensures
            r.pool_wf(),
            r.pool_layout()@ == (LayoutFacts { max_segments: 1, ..layout@ }),
            r.limit() == DEFAULT_POOL_MAX_BUFFERS,
            r.allocated_spec() == 0,
            r.in_flight() == 0,
    {
        Self::with_max_buffers(layout, DEFAULT_POOL_MAX_BUFFERS)
    }

    /// Creates a slab-backed pool for `layout` with at most `max_buffers`
    /// backing buffers.
    ///
    /// A limit of 0 is allowed and makes every allocation return `None`.
    #[must_use]
    pub fn with_max_buffers(layout: BufferLayout, max_buffers: usize) -> (r: Self)
        requires
            layout.wf(),
            max_buffers <= max_buffers_limit(),
        ensures
            r.pool_wf(),
            r.pool_layout()@ == (LayoutFacts { max_segments: 1, ..layout@ }),
            r.limit() == max_buffers,
            r.allocated_spec() == 0,
            r.in_flight() == 0,
    {
        OsBufferPool {
            layout: layout.with_max_segments(1),
            free: Vec::new(),
            remote: Queue::new(max_buffers),
            allocated: 0,
            max_buffers,
        }
    }

    fn drain_remote(&mut self)
        requires
            old(self).inv(),
        ensures
            final(self).inv(),
            final(self).layout == old(self).layout,
            final(self).max_buffers == old(self).max_buffers,
            final(self).allocated == old(self).allocated,
            final(self).remote@.len() == 0,
            final(self).free@ == old(self).free@ + old(self).remote@,
    {
        proof {
            assert(self.free@ + self.remote@.take(0) =~= self.free@);
        }
        let ghost mut moved: int = 0;
        while !self.remote.is_empty()
            invariant
                self.inv(),
                self.layout == old(self).layout,
                self.max_buffers == old(self).max_buffers,
                self.allocated == old(self).allocated,
                0 <= moved <= old(self).remote@.len(),
                self.remote@ == old(self).remote@.skip(moved),
                self.free@ == old(self).free@ + old(self).remote@.take(moved),
            decreases self.remote@.len(),
        {
            let ghost queued = self.remote@;
            if let Some(storage) = self.remote.pop() {
                proof {
                    assert(queued.skip(1) =~= old(self).remote@.skip(moved + 1));
                    assert(old(self).free@ + old(self).remote@.take(moved + 1) =~= self.free@.push(
                        storage,
                    ));
                }
                self.free.push(storage);
                proof {
                    moved = moved + 1;
                }
            }
        }
        proof {
            assert(old(self).remote@.take(moved) =~= old(self).remote@);
        }
    }

    fn pop(&mut self) -> (r: Option<Vec<u8>>)
        requires
            old(self).inv(),
        ensures
            final(self).layout == old(self).layout,
            final(self).max_buffers == old(self).max_buffers,
            final(self).allocated == old(self).allocated,
            final(self).inv(),
            r is Some <==> old(self).free@.len() + old(self).remote@.len() > 0,
            final(self).free@.len() + final(self).remote@.len() == old(self).free@.len() + old(self).remote@.len() - (if r is Some {
                1int
            } else {
                0
            }),
    {
        if self.free.len() == 0 {
            self.drain_remote();
        }
        self.free.pop()
    }

    /// Allocates another slab of backing buffers, capped at the pool limit.
    /// Returns the number of buffers added.
    fn grow(&mut self) -> (r: usize)
        requires
            old(self).inv(),
        ensures
            final(self).inv(),
            final(self).layout == old(self).layout,
            final(self).max_buffers == old(self).max_buffers,
            final(self).remote == old(self).remote,
            r == slab_growth(old(self).limit(), old(self).allocated_spec()),
            final(self).allocated == old(self).allocated + r,
            final(self).free@.len() == old(self).free@.len() + r,
    {
        let remaining: usize = self.max_buffers.saturating_sub(self.allocated);
        if remaining == 0 {
            return 0;
        }
        let chunk: usize = if remaining < SLAB_SIZE {
            remaining
        } else {
            SLAB_SIZE
        };
        let length: usize = self.layout.allocation_len();
        self.allocated = self.allocated + chunk;
        let mut added: usize = 0;
        while added < chunk
            invariant
                added <= chunk,
                self.inv(),
                self.layout == old(self).layout,
                self.max_buffers == old(self).max_buffers,
                self.remote == old(self).remote,
                self.allocated == old(self).allocated + chunk,
                self.free@.len() == old(self).free@.len() + added,
                old(self).free@.len() + old(self).remote@.len() <= old(self).allocated,
            decreases chunk - added,
        {
            self.free.push(vec![0u8; length]);
            added = added + 1;
        }
        chunk
    }

    /// Takes back a buffer that this pool issued, on the owner's side.
    pub fn recycle(&mut self, buffer: OsPacketBufMut)
        requires
            old(self).pool_wf(),
            old(self).in_flight() > 0,
        ensures
            final(self).pool_wf(),
            final(self).pool_layout() == old(self).pool_layout(),
            final(self).limit() == old(self).limit(),
            final(self).allocated_spec() == old(self).allocated_spec(),
            final(self).in_flight() == old(self).in_flight() - 1,
            final(self).remote_count() == old(self).remote_count(),
    {
        self.free.push(buffer.inner.into_storage());
    }

    /// Takes back a buffer that this pool issued, through the reclaim queue.
    pub fn recycle_remote(&mut self, buffer: OsPacketBufMut)
        requires
            old(self).pool_wf(),
            old(self).in_flight() > 0,
        ensures
            final(self).pool_wf(),
            final(self).pool_layout() == old(self).pool_layout(),
            final(self).limit() == old(self).limit(),
            final(self).allocated_spec() == old(self).allocated_spec(),
            final(self).in_flight() == old(self).in_flight() - 1,
            final(self).remote_count() == old(self).remote_count() + 1,
    {
        let _ = self.remote.push(buffer.inner.into_storage());
    }
}

/// The number of buffers that a pool adds when it has none to reuse.
pub open spec fn slab_growth(limit: nat, allocated: nat) -> int {
    let remaining = if allocated < limit {
        limit - allocated
    } else {
        0
    };
    if remaining < SLAB_SIZE {
        remaining
    } else {
        SLAB_SIZE as int
    }
}

impl BufferPool for OsBufferPool {
    type Buffer = OsPacketBufMut;

    closed spec fn pool_wf(&self) -> bool {
        self.inv()
    }

    closed spec fn pool_layout(&self) -> BufferLayout {
        self.layout
    }

    fn layout(&self) -> &BufferLayout {
        &self.layout
    }

    /// Reuses a buffer that came back, or allocates a slab; fails when the pool
    /// is at its limit with every buffer out.
    fn allocate(&mut self) -> (r: Option<OsPacketBufMut>)
        ensures
            r is Some <==> old(self).in_flight() < old(self).limit(),
            final(self).limit() == old(self).limit(),
            final(self).in_flight() == old(self).in_flight() + (if r is Some {
                1int
            } else {
                0
            }),
            final(self).allocated_spec() == old(self).allocated_spec() + (if old(self).free_count()
                + old(self).remote_count() == 0 {
                slab_growth(old(self).limit(), old(self).allocated_spec())
            } else {
                0
            }),
            r matches Some(buffer) ==> {
                &&& buffer.is_chunk()
                &&& buffer.headroom_spec() == old(self).pool_layout()@.headroom
                &&& buffer.tailroom_spec() == old(self).pool_layout()@.chunk_size - old(self).pool_layout()@.data_offset
            },
    {
        let mut storage = match self.pop() {
            Some(storage) => storage,
            None => {
                if self.grow() == 0 {
                    return None;
                }
                match self.pop() {
                    Some(storage) => storage,
                    None => {
                        return None;
                    },
                }
            },
        };
        let length: usize = self.layout.allocation_len();
        if storage.len() != length {
            storage.resize(length, 0);
        }
        Some(OsPacketBufMut { inner: PacketMemory::from_storage(storage, self.layout) })
    }
}

/// A pool never has more buffers out, nor more memory allocated, than its limit.
pub proof fn law_pool_stays_within_its_limit(pool: OsBufferPool)
    requires
        pool.pool_wf(),
    ensures
        0 <= pool.in_flight() <= pool.allocated_spec() <= pool.limit(),
{
}

/// A new pool has given out nothing and may make as many buffers as its limit says, 65536
/// where none is given. Its buffers have the layout that was asked for, in one segment.
pub proof fn law_new_pools_have_their_limit(
    layout: BufferLayout,
    max_buffers: usize,
    pool: OsBufferPool,
)
    ensures
        call_ensures(OsBufferPool::with_max_buffers, (layout, max_buffers), pool) ==> {
            &&& pool.limit() == max_buffers
            &&& pool.in_flight() == 0
            &&& pool.allocated_spec() == 0
            &&& pool.pool_layout()@.max_segments == 1
            &&& pool.pool_layout()@.payload_capacity == layout@.payload_capacity
            &&& pool.pool_layout()@.headroom == layout@.headroom
            &&& pool.pool_layout()@.tailroom == layout@.tailroom
            &&& pool.pool_layout()@.chunk_size == layout@.chunk_size
        },
        call_ensures(OsBufferPool::new, (layout,), pool) ==> {
            &&& pool.limit() == 65536
            &&& pool.in_flight() == 0
            &&& pool.pool_layout()@.max_segments == 1
            &&& pool.pool_layout()@.payload_capacity == layout@.payload_capacity
            &&& pool.pool_layout()@.headroom == layout@.headroom
        },
{
}

/// A pool gives out a buffer whenever fewer than its limit are in use. It makes more only
/// when none is free: 64 at a time, as far as the limit allows.
pub proof fn law_pools_give_out_buffers_up_to_the_limit(r: Option<OsPacketBufMut>)
    ensures
        forall|pool: &mut OsBufferPool| #[trigger]
            call_ensures(OsBufferPool::allocate, (pool,), r) && pool.pool_wf() ==> {
                let free = pool.allocated_spec() - pool.in_flight();
                let made = final(pool).allocated_spec() - pool.allocated_spec();
                &&& r is Some <==> pool.in_flight() < pool.limit()
                &&& final(pool).limit() == pool.limit()
                &&& final(pool).in_flight() == pool.in_flight() + (if r is Some {
                    1int
                } else {
                    0
                })
                &&& free > 0 ==> made == 0
                &&& free == 0 ==> 0 <= made <= 64 && final(pool).allocated_spec() <= pool.limit()
                    && (made == 64 || final(pool).allocated_spec() == pool.limit())
                &&& r matches Some(buffer) ==> {
                    &&& buffer.bytes().len() == 0
                    &&& buffer.headroom_spec() == pool.pool_layout()@.headroom
                    &&& buffer.tailroom_spec() + pool.pool_layout()@.data_offset
                        == pool.pool_layout()@.chunk_size
                    &&& buffer.layout_spec() == pool.pool_layout()
                }
            },
{
}

/// A buffer that is handed back is no longer in use, whichever way it comes back.
pub proof fn law_recycled_buffers_are_free_again(buffer: OsPacketBufMut)
    ensures
        forall|pool: &mut OsBufferPool| #[trigger]
            call_ensures(OsBufferPool::recycle, (pool, buffer), ()) ==> final(pool).in_flight()
                == pool.in_flight() - 1 && final(pool).allocated_spec() == pool.allocated_spec()
                && final(pool).limit() == pool.limit(),
        forall|pool: &mut OsBufferPool| #[trigger]
            call_ensures(OsBufferPool::recycle_remote, (pool, buffer), ())
                ==> final(pool).in_flight() == pool.in_flight() - 1
                && final(pool).allocated_spec() == pool.allocated_spec()
                && final(pool).limit() == pool.limit(),
{
}

/// The length of a received packet may be set to as much as the buffer's payload holds.
/// The packet is then the start of what was received. A longer one is refused.
pub proof fn law_received_lengths_are_bounded(len: usize, r: Result<(), BufferAccessError>)
    ensures
        forall|buffer: &mut OsPacketBufMut| #[trigger]
            call_ensures(OsPacketBufMut::set_received_len, (buffer, len), r) ==> {
                let capacity = buffer.layout_spec()@.payload_capacity;
                &&& r is Ok <==> len <= capacity
                &&& r is Ok ==> final(buffer).bytes() == buffer.receive_area().take(len as int)
                &&& r is Err ==> *final(buffer) == *buffer
                &&& r matches Err(error) ==> (error
                    matches BufferAccessError::InsufficientTailroom { available, requested }
                    && available == capacity as usize && requested == len)
            },
{
}

/// Freezing a buffer and making it writable again changes neither its bytes nor its room.
pub proof fn law_freezing_keeps_the_packet(
    buffer: OsPacketBufMut,
    frozen: OsPacketBuf,
    again: OsPacketBufMut,
)
    requires
        call_ensures(OsPacketBufMut::freeze, (buffer,), frozen),
        call_ensures(OsPacketBuf::into_mut, (frozen,), again),
    ensures
        again.bytes() == buffer.bytes(),
        again.headroom_spec() == buffer.headroom_spec(),
        again.tailroom_spec() == buffer.tailroom_spec(),
        again.layout_spec() == buffer.layout_spec(),
{
}

/// A buffer of a pool shows its bytes in one piece, whichever way it is asked.
pub proof fn law_pool_buffers_show_their_bytes(frozen: &OsPacketBuf, mutable: &OsPacketBufMut)
    ensures
        forall|r: &[u8]| #[trigger]
            call_ensures(OsPacketBuf::as_slice, (frozen,), r) ==> r@ == frozen.bytes(),
        forall|r: Option<&[u8]>| #[trigger]
            call_ensures(OsPacketBuf::contiguous, (frozen,), r) ==> (r matches Some(bytes) && bytes@
                == frozen.bytes()),
        forall|r: Option<&[u8]>| #[trigger]
            call_ensures(OsPacketBuf::first_segment, (frozen,), r) ==> (r is Some
                <==> frozen.bytes().len() > 0) && (r matches Some(bytes) ==> bytes@
                == frozen.bytes()),
        forall|r: usize| #[trigger]
            call_ensures(OsPacketBuf::len, (frozen,), r) ==> r == frozen.bytes().len(),
        forall|r: &[u8]| #[trigger]
            call_ensures(OsPacketBufMut::as_slice, (mutable,), r) ==> r@ == mutable.bytes(),
        forall|r: Option<&[u8]>| #[trigger]
            call_ensures(OsPacketBufMut::contiguous, (mutable,), r) ==> (r matches Some(bytes)
                && bytes@ == mutable.bytes()),
        forall|r: Option<&[u8]>| #[trigger]
            call_ensures(OsPacketBufMut::first_segment, (mutable,), r) ==> (r is Some
                <==> mutable.bytes().len() > 0) && (r matches Some(bytes) ==> bytes@
                == mutable.bytes()),
        forall|r: usize| #[trigger]
            call_ensures(OsPacketBufMut::len, (mutable,), r) ==> r == mutable.bytes().len(),
        forall|r: usize| #[trigger]
            call_ensures(OsPacketBufMut::headroom, (mutable,), r) ==> r == mutable.headroom_spec(),
        forall|r: usize| #[trigger]
            call_ensures(OsPacketBufMut::tailroom, (mutable,), r) ==> r == mutable.tailroom_spec(),
{
}

} // verus!
