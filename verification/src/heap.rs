//! Packet buffers on the heap.

use vstd::prelude::*;

use crate::buffer::{
    extended, lemma_joined_single, packet_state, prepended, BufferAccessError, BufferLayout,
    BufferPool, OwnedPacketBuffer, PacketBuffer, PacketBufferMut, PacketState, ReserveError,
};
use crate::packet::PacketMemory;

verus! {

/// Immutable heap packet buffer.
#[derive(Debug)]
pub struct PacketBuf {
    inner: PacketMemory,
}

impl PacketBuf {
    /// Creates a compact buffer that holds a copy of `bytes`.
    #[must_use]
    pub fn copy_from_slice(bytes: &[u8]) -> (r: Self)
        ensures
            r.wf(),
            r.bytes() == bytes@,
            r.headroom_spec() == 0,
            r.tailroom_spec() == 0,
    {
        let layout = BufferLayout::new(bytes.len());
        PacketBuf { inner: PacketMemory::filled(vstd::slice::slice_to_vec(bytes), layout) }
    }

    /// Returns the packet bytes.
    #[must_use]
    pub fn as_slice(&self) -> (r: &[u8])
        requires
            self.wf(),
        ensures
            r@ == self.bytes(),
    {
        self.inner.as_slice()
    }
}

impl PacketBuffer for PacketBuf {
    closed spec fn wf(&self) -> bool {
        self.inner.wf()
    }

    closed spec fn bytes(&self) -> Seq<u8> {
        self.inner.bytes()
    }

    closed spec fn headroom_spec(&self) -> nat {
        self.inner.headroom_spec()
    }

    closed spec fn tailroom_spec(&self) -> nat {
        self.inner.tailroom_spec()
    }

    closed spec fn layout_spec(&self) -> BufferLayout {
        self.inner.layout_spec()
    }

    open spec fn is_contiguous(&self) -> bool {
        true
    }

    fn len(&self) -> usize {
        self.inner.len()
    }

    fn headroom(&self) -> usize {
        self.inner.headroom()
    }

    fn tailroom(&self) -> usize {
        self.inner.tailroom()
    }

    fn layout(&self) -> &BufferLayout {
        self.inner.layout()
    }

    fn segments(&self) -> (r: Vec<&[u8]>)
        ensures
            r@.len() == (if self.bytes().len() == 0 {
                0int
            } else {
                1
            }),
    {
        let mut segments: Vec<&[u8]> = Vec::new();
        if self.inner.len() > 0 {
            segments.push(self.inner.as_slice());
        }
        proof {
            lemma_joined_single(segments@, self.inner.bytes());
        }
        segments
    }

    fn first_segment(&self) -> (r: Option<&[u8]>)
        ensures
            r is Some <==> self.bytes().len() > 0,
            r matches Some(segment) ==> segment@ == self.bytes(),
    {
        if self.inner.len() > 0 {
            Some(self.inner.as_slice())
        } else {
            None
        }
    }

    fn contiguous(&self) -> (r: Option<&[u8]>)
        ensures
            r is Some,
    {
        Some(self.inner.as_slice())
    }

    fn read_at_exact(&self, offset: usize, dst: &mut [u8]) -> Result<(), BufferAccessError> {
        self.inner.read_at_exact(offset, dst)
    }
}

impl OwnedPacketBuffer for PacketBuf {
    type Mutable = PacketBufMut;

    fn into_mut(self) -> PacketBufMut {
        PacketBufMut { inner: self.inner }
    }
}

/// Mutable heap packet buffer.
#[derive(Debug)]
pub struct PacketBufMut {
    inner: PacketMemory,
}

impl PacketBufMut {
    /// Creates an empty buffer with freshly allocated storage.
    #[must_use]
    pub fn new(layout: BufferLayout) -> (r: Self)
        requires
            layout.wf(),
        ensures
            r.wf(),
            r.bytes() == Seq::<u8>::empty(),
            r.layout_spec() == layout,
            r.headroom_spec() == layout@.headroom,
            r.tailroom_spec() == layout@.chunk_size - layout@.data_offset,
    {
        let storage: Vec<u8> = vec![0u8; layout.allocation_len()];
        PacketBufMut { inner: PacketMemory::from_storage(storage, layout) }
    }

    /// Creates a compact buffer that holds a copy of `bytes`.
    #[must_use]
    pub fn copy_from_slice(bytes: &[u8]) -> (r: Self)
        ensures
            r.wf(),
            r.bytes() == bytes@,
            r.headroom_spec() == 0,
            r.tailroom_spec() == 0,
    {
        let layout = BufferLayout::new(bytes.len());
        PacketBufMut { inner: PacketMemory::filled(vstd::slice::slice_to_vec(bytes), layout) }
    }

    /// Returns the packet bytes.
    #[must_use]
    pub fn as_slice(&self) -> (r: &[u8])
        requires
            self.wf(),
        ensures
            r@ == self.bytes(),
    {
        self.inner.as_slice()
    }

    /// Returns the packet bytes mutably.
    #[must_use]
    pub fn as_mut_slice(&mut self) -> (r: &mut [u8])
        requires
            old(self).wf(),
        ensures
            r@ == old(self).bytes(),
            final(r)@.len() == r@.len() ==> {
                &&& final(self).wf()
                &&& final(self).bytes() == final(r)@
                &&& final(self).headroom_spec() == old(self).headroom_spec()
                &&& final(self).tailroom_spec() == old(self).tailroom_spec()
                &&& final(self).layout_spec() == old(self).layout_spec()
            },
    {
        self.inner.as_mut_slice()
    }

    /// The payload capacity after a relocation.
    pub open spec fn relocated_capacity(&self) -> int {
        if self.layout_spec()@.payload_capacity < self.bytes().len() {
            self.bytes().len() as int
        } else {
            self.layout_spec()@.payload_capacity
        }
    }

    /// Bytes that the storage of a relocated packet needs besides headroom and tailroom.
    pub open spec fn relocation_base(&self) -> int {
        self.relocated_capacity() + self.layout_spec()@.l2_headroom
    }

    /// The packet after a relocation that leaves room for `headroom` bytes before it and
    /// `tailroom` bytes behind its capacity. It stays where it is if no memory can be
    /// that large.
    pub open spec fn relocated(&self, headroom: nat, tailroom: nat) -> PacketState {
        if self.relocation_base() + headroom + tailroom <= usize::MAX {
            PacketState {
                bytes: self.bytes(),
                headroom,
                tailroom: (tailroom + self.relocated_capacity() - self.bytes().len()) as nat,
            }
        } else {
            packet_state(*self)
        }
    }

    fn relocation_base_len(&self) -> (r: Option<usize>)
        requires
            self.wf(),
        ensures
            r matches Some(base) ==> base == self.relocation_base(),
            r is None ==> self.relocation_base() > usize::MAX,
    {
        let layout = *self.inner.layout();
        let length: usize = self.inner.len();
        let capacity: usize = if layout.payload_capacity() < length {
            length
        } else {
            layout.payload_capacity()
        };
        capacity.checked_add(layout.l2_headroom())
    }
}

impl PacketBuffer for PacketBufMut {
    closed spec fn wf(&self) -> bool {
        self.inner.wf()
    }

    closed spec fn bytes(&self) -> Seq<u8> {
        self.inner.bytes()
    }

    closed spec fn headroom_spec(&self) -> nat {
        self.inner.headroom_spec()
    }

    closed spec fn tailroom_spec(&self) -> nat {
        self.inner.tailroom_spec()
    }

    closed spec fn layout_spec(&self) -> BufferLayout {
        self.inner.layout_spec()
    }

    open spec fn is_contiguous(&self) -> bool {
        true
    }

    fn len(&self) -> usize {
        self.inner.len()
    }

    fn headroom(&self) -> usize {
        self.inner.headroom()
    }

    fn tailroom(&self) -> usize {
        self.inner.tailroom()
    }

    fn layout(&self) -> &BufferLayout {
        self.inner.layout()
    }

    fn segments(&self) -> (r: Vec<&[u8]>)
        ensures
            r@.len() == (if self.bytes().len() == 0 {
                0int
            } else {
                1
            }),
    {
        let mut segments: Vec<&[u8]> = Vec::new();
        if self.inner.len() > 0 {
            segments.push(self.inner.as_slice());
        }
        proof {
            lemma_joined_single(segments@, self.inner.bytes());
        }
        segments
    }

    fn first_segment(&self) -> (r: Option<&[u8]>)
        ensures
            r is Some <==> self.bytes().len() > 0,
            r matches Some(segment) ==> segment@ == self.bytes(),
    {
        if self.inner.len() > 0 {
            Some(self.inner.as_slice())
        } else {
            None
        }
    }

    fn contiguous(&self) -> (r: Option<&[u8]>)
        ensures
            r is Some,
    {
        Some(self.inner.as_slice())
    }

    fn read_at_exact(&self, offset: usize, dst: &mut [u8]) -> Result<(), BufferAccessError> {
        self.inner.read_at_exact(offset, dst)
    }
}

impl PacketBufferMut for PacketBufMut {
    type Frozen = PacketBuf;

    fn first_segment_mut(&mut self) -> (r: Option<&mut [u8]>)
        ensures
            r is Some <==> old(self).bytes().len() > 0,
            r matches Some(segment) ==> segment@ == old(self).bytes(),
    {
        if self.inner.len() > 0 {
            Some(self.inner.as_mut_slice())
        } else {
            None
        }
    }

    fn contiguous_mut(&mut self) -> (r: Option<&mut [u8]>)
        ensures
            r is Some,
    {
        Some(self.inner.as_mut_slice())
    }

    fn prepend(&mut self, bytes: &[u8]) -> Result<(), ReserveError> {
        self.inner.prepend(bytes)
    }

    fn extend_from_slice(&mut self, bytes: &[u8]) -> Result<(), BufferAccessError> {
        self.inner.extend_from_slice(bytes)
    }

    fn trim_prefix(&mut self, len: usize) -> Result<(), BufferAccessError> {
        self.inner.trim_prefix(len)
    }

    fn trim_suffix(&mut self, len: usize) -> Result<(), BufferAccessError> {
        self.inner.trim_suffix(len)
    }

    /// Relocates whenever the grown storage is addressable.
    fn prepend_relocating(&mut self, bytes: &[u8]) -> (r: Result<(), ReserveError>)
        ensures
            ({
                let start = if bytes@.len() > old(self).headroom_spec() {
                    old(self).relocated(bytes@.len(), old(self).tailroom_spec())
                } else {
                    packet_state(*old(self))
                };
                &&& r == prepended(start, bytes@).0
                &&& packet_state(*final(self)) == prepended(start, bytes@).1
            }),
    {
        if bytes.len() > self.inner.headroom() {
            let tailroom: usize = self.inner.tailroom();
            if let Some(base) = self.relocation_base_len() {
                if let Some(partial) = base.checked_add(tailroom) {
                    if partial.checked_add(bytes.len()).is_some() {
                        self.inner.relocate(bytes.len(), tailroom);
                    }
                }
            }
        }
        self.inner.prepend(bytes)
    }

    /// Relocates whenever the grown storage is addressable.
    fn extend_from_slice_relocating(&mut self, bytes: &[u8]) -> (r: Result<(), BufferAccessError>)
        ensures
            ({
                let start = if bytes@.len() > old(self).tailroom_spec() {
                    old(self).relocated(old(self).headroom_spec(), bytes@.len())
                } else {
                    packet_state(*old(self))
                };
                &&& r == extended(start, bytes@).0
                &&& packet_state(*final(self)) == extended(start, bytes@).1
            }),
    {
        if bytes.len() > self.inner.tailroom() {
            let headroom: usize = self.inner.headroom();
            if let Some(base) = self.relocation_base_len() {
                if let Some(partial) = base.checked_add(headroom) {
                    if partial.checked_add(bytes.len()).is_some() {
                        self.inner.relocate(headroom, bytes.len());
                    }
                }
            }
        }
        self.inner.extend_from_slice(bytes)
    }

    fn freeze(self) -> PacketBuf {
        PacketBuf { inner: self.inner }
    }
}

/// Pool that allocates every buffer anew.
#[derive(Debug)]
pub struct HeapBufferPool {
    layout: BufferLayout,
}

impl HeapBufferPool {
    /// Creates a pool of single-segment buffers with `layout`.
    #[must_use]
    pub fn new(layout: BufferLayout) -> (r: Self)
        requires
            layout.wf(),
        ensures
            r.pool_wf(),
            r.pool_layout()@ == (crate::buffer::LayoutFacts { max_segments: 1, ..layout@ }),
    {
        HeapBufferPool { layout: layout.with_max_segments(1) }
    }

    /// Creates a pool of compact buffers with room for `payload_capacity` bytes.
    #[must_use]
    pub fn with_payload_capacity(payload_capacity: usize) -> (r: Self)
        ensures
            r.pool_wf(),
            r.pool_layout()@ == crate::buffer::contiguous_layout(payload_capacity as int, 0, 0),
    {
        Self::new(BufferLayout::new(payload_capacity))
    }
}

impl BufferPool for HeapBufferPool {
    type Buffer = PacketBufMut;

    closed spec fn pool_wf(&self) -> bool {
        self.layout.wf()
    }

    closed spec fn pool_layout(&self) -> BufferLayout {
        self.layout
    }

    fn layout(&self) -> &BufferLayout {
        &self.layout
    }

    fn allocate(&mut self) -> (r: Option<PacketBufMut>)
        ensures
            r is Some,
    {
        Some(PacketBufMut::new(self.layout))
    }
}

/// A new heap buffer is empty: its headroom is that of its layout, and everything behind
/// the headrooms is tailroom.
pub proof fn law_new_heap_buffers_are_empty(layout: BufferLayout, r: PacketBufMut)
    requires
        call_ensures(PacketBufMut::new, (layout,), r),
    ensures
        r.bytes().len() == 0,
        r.headroom_spec() == layout@.headroom,
        r.tailroom_spec() + layout@.data_offset == layout@.chunk_size,
        r.layout_spec() == layout,
{
}

/// A copy holds the bytes that it was made of and has no further room.
pub proof fn law_copies_hold_their_bytes(bytes: &[u8], mutable: PacketBufMut, frozen: PacketBuf)
    ensures
        call_ensures(PacketBufMut::copy_from_slice, (bytes,), mutable) ==> mutable.bytes() == bytes@
            && mutable.headroom_spec() == 0 && mutable.tailroom_spec() == 0,
        call_ensures(PacketBuf::copy_from_slice, (bytes,), frozen) ==> frozen.bytes() == bytes@
            && frozen.headroom_spec() == 0 && frozen.tailroom_spec() == 0,
{
}

/// Freezing a buffer and making it writable again changes neither its bytes nor its room.
pub proof fn law_freezing_keeps_the_packet(
    buffer: PacketBufMut,
    frozen: PacketBuf,
    again: PacketBufMut,
)
    requires
        call_ensures(PacketBufMut::freeze, (buffer,), frozen),
        call_ensures(PacketBuf::into_mut, (frozen,), again),
    ensures
        again.bytes() == buffer.bytes(),
        again.headroom_spec() == buffer.headroom_spec(),
        again.tailroom_spec() == buffer.tailroom_spec(),
        again.layout_spec() == buffer.layout_spec(),
{
}

/// A relocating prepend succeeds whatever the headroom, as far as the memory can be
/// addressed: without enough headroom the packet moves to memory that has exactly enough,
/// and no tailroom is lost.
pub proof fn law_relocating_prepends_find_room(bytes: &[u8], r: Result<(), ReserveError>)
    ensures
        forall|buffer: &mut PacketBufMut| #[trigger]
            call_ensures(PacketBufMut::prepend_relocating, (buffer, bytes), r) && buffer.wf()
                && buffer.layout_spec()@.payload_capacity + buffer.bytes().len()
                + buffer.layout_spec()@.l2_headroom + bytes@.len() + buffer.tailroom_spec()
                <= usize::MAX && buffer.layout_spec()@.payload_capacity >= 0 ==> {
                &&& r is Ok
                &&& final(buffer).bytes() == bytes@ + buffer.bytes()
                &&& final(buffer).tailroom_spec() >= buffer.tailroom_spec()
                &&& bytes@.len() <= buffer.headroom_spec() ==> {
                    &&& final(buffer).headroom_spec() == buffer.headroom_spec() - bytes@.len()
                    &&& final(buffer).tailroom_spec() == buffer.tailroom_spec()
                }
                &&& bytes@.len() > buffer.headroom_spec() ==> final(buffer).headroom_spec() == 0
            },
{
    assert forall|buffer: &mut PacketBufMut| #[trigger]
        call_ensures(PacketBufMut::prepend_relocating, (buffer, bytes), r) && buffer.wf()
            && buffer.layout_spec()@.payload_capacity + buffer.bytes().len()
            + buffer.layout_spec()@.l2_headroom + bytes@.len() + buffer.tailroom_spec()
            <= usize::MAX && buffer.layout_spec()@.payload_capacity >= 0 implies {
        &&& r is Ok
        &&& final(buffer).bytes() == bytes@ + buffer.bytes()
        &&& final(buffer).tailroom_spec() >= buffer.tailroom_spec()
        &&& bytes@.len() <= buffer.headroom_spec() ==> {
            &&& final(buffer).headroom_spec() == buffer.headroom_spec() - bytes@.len()
            &&& final(buffer).tailroom_spec() == buffer.tailroom_spec()
        }
        &&& bytes@.len() > buffer.headroom_spec() ==> final(buffer).headroom_spec() == 0
    } by {
        let start = if bytes@.len() > buffer.headroom_spec() {
            buffer.relocated(bytes@.len(), buffer.tailroom_spec())
        } else {
            packet_state(*buffer)
        };
        let after = packet_state(*final(buffer));
        assert(after == prepended(start, bytes@).1);
    }
}

/// A relocating extension succeeds whatever the tailroom, as far as the memory can be
/// addressed: without enough tailroom the packet moves, keeps its headroom, and has room
/// for its layout's payload.
pub proof fn law_relocating_extensions_find_room(bytes: &[u8], r: Result<(), BufferAccessError>)
    ensures
        forall|buffer: &mut PacketBufMut| #[trigger]
            call_ensures(PacketBufMut::extend_from_slice_relocating, (buffer, bytes), r)
                && buffer.wf() && buffer.layout_spec()@.payload_capacity + buffer.bytes().len()
                + buffer.layout_spec()@.l2_headroom + bytes@.len() + buffer.headroom_spec()
                <= usize::MAX && buffer.layout_spec()@.payload_capacity >= 0 ==> {
                &&& r is Ok
                &&& final(buffer).bytes() == buffer.bytes() + bytes@
                &&& final(buffer).headroom_spec() == buffer.headroom_spec()
                &&& bytes@.len() <= buffer.tailroom_spec() ==> final(buffer).tailroom_spec()
                    == buffer.tailroom_spec() - bytes@.len()
                &&& bytes@.len() > buffer.tailroom_spec() ==> final(buffer).tailroom_spec()
                    == if buffer.bytes().len() < buffer.layout_spec()@.payload_capacity {
                    buffer.layout_spec()@.payload_capacity - buffer.bytes().len()
                } else {
                    0
                }
            },
{
    assert forall|buffer: &mut PacketBufMut| #[trigger]
        call_ensures(PacketBufMut::extend_from_slice_relocating, (buffer, bytes), r) && buffer.wf()
            && buffer.layout_spec()@.payload_capacity + buffer.bytes().len()
            + buffer.layout_spec()@.l2_headroom + bytes@.len() + buffer.headroom_spec()
            <= usize::MAX && buffer.layout_spec()@.payload_capacity >= 0 implies {
        &&& r is Ok
        &&& final(buffer).bytes() == buffer.bytes() + bytes@
        &&& final(buffer).headroom_spec() == buffer.headroom_spec()
        &&& bytes@.len() <= buffer.tailroom_spec() ==> final(buffer).tailroom_spec()
            == buffer.tailroom_spec() - bytes@.len()
        &&& bytes@.len() > buffer.tailroom_spec() ==> final(buffer).tailroom_spec()
            == if buffer.bytes().len() < buffer.layout_spec()@.payload_capacity {
            buffer.layout_spec()@.payload_capacity - buffer.bytes().len()
        } else {
            0
        }
    } by {
        let start = if bytes@.len() > buffer.tailroom_spec() {
            buffer.relocated(buffer.headroom_spec(), bytes@.len())
        } else {
            packet_state(*buffer)
        };
        let after = packet_state(*final(buffer));
        assert(after == extended(start, bytes@).1);
    }
}

/// A heap pool always has a buffer: an empty one with the pool's layout, in one segment.
pub proof fn law_heap_pools_always_allocate(layout: BufferLayout, pool: HeapBufferPool)
    requires
        call_ensures(HeapBufferPool::new, (layout,), pool),
    ensures
        pool.pool_layout()@.max_segments == 1,
        pool.pool_layout()@.payload_capacity == layout@.payload_capacity,
        pool.pool_layout()@.headroom == layout@.headroom,
        pool.pool_layout()@.tailroom == layout@.tailroom,
        pool.pool_layout()@.chunk_size == layout@.chunk_size,
        pool.pool_layout()@.data_offset == layout@.data_offset,
        forall|used: &mut HeapBufferPool, r: Option<PacketBufMut>| #[trigger]
            call_ensures(HeapBufferPool::allocate, (used,), r) ==> (r matches Some(buffer)
                && buffer.bytes().len() == 0 && buffer.layout_spec() == used.pool_layout()
                && final(used).pool_layout() == used.pool_layout()),
{
}

/// A heap buffer shows its bytes in one piece, whichever way it is asked.
pub proof fn law_heap_buffers_show_their_bytes(frozen: &PacketBuf, mutable: &PacketBufMut)
    ensures
        forall|r: &[u8]| #[trigger]
            call_ensures(PacketBuf::as_slice, (frozen,), r) ==> r@ == frozen.bytes(),
        forall|r: Option<&[u8]>| #[trigger]
            call_ensures(PacketBuf::contiguous, (frozen,), r) ==> (r matches Some(bytes) && bytes@
                == frozen.bytes()),
        forall|r: Option<&[u8]>| #[trigger]
            call_ensures(PacketBuf::first_segment, (frozen,), r) ==> (r is Some
                <==> frozen.bytes().len() > 0) && (r matches Some(bytes) ==> bytes@
                == frozen.bytes()),
        forall|r: usize| #[trigger]
            call_ensures(PacketBuf::len, (frozen,), r) ==> r == frozen.bytes().len(),
        forall|r: &[u8]| #[trigger]
            call_ensures(PacketBufMut::as_slice, (mutable,), r) ==> r@ == mutable.bytes(),
        forall|r: Option<&[u8]>| #[trigger]
            call_ensures(PacketBufMut::contiguous, (mutable,), r) ==> (r matches Some(bytes)
                && bytes@ == mutable.bytes()),
        forall|r: Option<&[u8]>| #[trigger]
            call_ensures(PacketBufMut::first_segment, (mutable,), r) ==> (r is Some
                <==> mutable.bytes().len() > 0) && (r matches Some(bytes) ==> bytes@
                == mutable.bytes()),
        forall|r: usize| #[trigger]
            call_ensures(PacketBufMut::len, (mutable,), r) ==> r == mutable.bytes().len(),
        forall|r: usize| #[trigger]
            call_ensures(PacketBufMut::headroom, (mutable,), r) ==> r == mutable.headroom_spec(),
        forall|r: usize| #[trigger]
            call_ensures(PacketBufMut::tailroom, (mutable,), r) ==> r == mutable.tailroom_spec(),
{
}

/// A pool for payloads has buffers of that many bytes and no further room.
pub proof fn law_payload_pools_hold_the_payload(payload_capacity: usize, r: HeapBufferPool)
    requires
        call_ensures(HeapBufferPool::with_payload_capacity, (payload_capacity,), r),
    ensures
        r.pool_layout()@.payload_capacity == payload_capacity,
        r.pool_layout()@.chunk_size == payload_capacity,
        r.pool_layout()@.headroom == 0,
        r.pool_layout()@.tailroom == 0,
        r.pool_layout()@.max_segments == 1,
{
}

} // verus!
