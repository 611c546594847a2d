//! Packet bytes inside one block of storage.

use vstd::prelude::*;

use crate::buffer::{read_contiguous, read_outcome, BufferAccessError, BufferLayout, ReserveError};
use crate::bytes::{overwritten, write_bytes};

verus! {

/// A packet in the range `start..end` of its storage.
///
/// The space before the packet, down to the link-layer headroom, is headroom;
/// the space after it is tailroom.
#[derive(Debug)]
pub struct PacketMemory {
    storage: Vec<u8>,
    start: usize,
    end: usize,
    layout: BufferLayout,
}

impl PacketMemory {
    /// All bytes of the backing storage.
    pub closed spec fn storage_spec(&self) -> Seq<u8> {
        self.storage@
    }

    /// Offset of the first packet byte.
    pub closed spec fn start_spec(&self) -> nat {
        self.start as nat
    }

    /// Offset behind the last packet byte.
    pub closed spec fn end_spec(&self) -> nat {
        self.end as nat
    }

    /// The layout of the storage.
    pub closed spec fn layout_spec(&self) -> BufferLayout {
        self.layout
    }

    /// The packet lies inside its storage, above the link-layer headroom.
    pub open spec fn wf(&self) -> bool {
        &&& self.layout_spec().wf()
        &&& self.layout_spec()@.l2_headroom <= self.start_spec()
        &&& self.start_spec() <= self.end_spec()
        &&& self.end_spec() <= self.storage_spec().len()
        &&& self.storage_spec().len() <= usize::MAX
    }

    /// The packet bytes.
    pub open spec fn bytes(&self) -> Seq<u8> {
        self.storage_spec().subrange(self.start_spec() as int, self.end_spec() as int)
    }

    /// Space before the packet, above the link-layer headroom.
    pub open spec fn headroom_spec(&self) -> nat {
        (self.start_spec() - self.layout_spec()@.l2_headroom) as nat
    }

    /// Space behind the packet.
    pub open spec fn tailroom_spec(&self) -> nat {
        (self.storage_spec().len() - self.end_spec()) as nat
    }

    /// Places an empty packet at the data offset of `storage`.
    pub fn from_storage(storage: Vec<u8>, layout: BufferLayout) -> (r: Self)
        requires
            layout.wf(),
            storage@.len() == layout@.chunk_size,
        ensures
            r.wf(),
            r.bytes() == Seq::<u8>::empty(),
            r.layout_spec() == layout,
            r.storage_spec() == storage@,
            r.headroom_spec() == layout@.headroom,
            r.tailroom_spec() == layout@.chunk_size - layout@.data_offset,
            r.start_spec() == layout@.data_offset,
    {
        let start: usize = layout.data_offset();
        let r = PacketMemory { storage, start, end: start, layout };
        assert(r.bytes() =~= Seq::<u8>::empty());
        r
    }

    /// Takes over all of `storage` as packet bytes.
    pub fn filled(storage: Vec<u8>, layout: BufferLayout) -> (r: Self)
        requires
            layout.wf(),
            layout@.l2_headroom == 0,
        ensures
            r.wf(),
            r.bytes() == storage@,
            r.layout_spec() == layout,
            r.storage_spec() == storage@,
            r.headroom_spec() == 0,
            r.tailroom_spec() == 0,
    {
        let end: usize = storage.len();
        let r = PacketMemory { storage, start: 0, end, layout };
        assert(r.bytes() =~= storage@);
        r
    }

    /// Gives up the backing storage.
    pub fn into_storage(self) -> (r: Vec<u8>)
        ensures
            r@ == self.storage_spec(),
    {
        self.storage
    }

    /// Returns the packet length.
    pub fn len(&self) -> (r: usize)
        requires
            self.wf(),
        ensures
            r == self.bytes().len(),
    {
        self.end - self.start
    }

    /// Returns the space before the packet.
    pub fn headroom(&self) -> (r: usize)
        requires
            self.wf(),
        ensures
            r == self.headroom_spec(),
    {
        self.start - self.layout.l2_headroom()
    }

    /// Returns the space behind the packet.
    pub fn tailroom(&self) -> (r: usize)
        requires
            self.wf(),
        ensures
            r == self.tailroom_spec(),
    {
        self.storage.len() - self.end
    }

    /// Returns the layout.
    pub fn layout(&self) -> (r: &BufferLayout)
        ensures
            *r == self.layout_spec(),
    {
        &self.layout
    }

    /// Returns the packet bytes.
    pub fn as_slice(&self) -> (r: &[u8])
        requires
            self.wf(),
        ensures
            r@ == self.bytes(),
    {
        vstd::slice::slice_subrange(self.storage.as_slice(), self.start, self.end)
    }

    /// Returns the packet bytes mutably.
    pub fn as_mut_slice(&mut self) -> (r: &mut [u8])
        requires
            old(self).wf(),
        ensures
            r@ == old(self).bytes(),
            final(r)@.len() == r@.len() ==> {
                &&& final(self).wf()
                &&& final(self).bytes() == final(r)@
                &&& final(self).start_spec() == old(self).start_spec()
                &&& final(self).end_spec() == old(self).end_spec()
                &&& final(self).layout_spec() == old(self).layout_spec()
                &&& final(self).storage_spec() == overwritten(
                    old(self).storage_spec(),
                    old(self).start_spec() as int,
                    final(r)@,
                )
            },
    {
        let start: usize = self.start;
        let length: usize = self.end - self.start;
        let (_before, rest) = self.storage.as_mut_slice().split_at_mut(start);
        let (packet, _after) = rest.split_at_mut(length);
        packet
    }

    /// Reads exactly `dst.len()` packet bytes at `offset`.
    pub fn read_at_exact(&self, offset: usize, dst: &mut [u8]) -> (r: Result<(), BufferAccessError>)
        requires
            self.wf(),
        ensures
            read_outcome(self.bytes(), offset, old(dst)@, final(dst)@, r),
    {
        read_contiguous(self.as_slice(), offset, dst)
    }

    /// Writes `bytes` directly before the packet.
    pub fn prepend(&mut self, bytes: &[u8]) -> (r: Result<(), ReserveError>)
        requires
            old(self).wf(),
        ensures
            final(self).wf(),
            final(self).layout_spec() == old(self).layout_spec(),
            final(self).storage_spec().len() == old(self).storage_spec().len(),
            final(self).end_spec() == old(self).end_spec(),
            if bytes@.len() <= old(self).headroom_spec() {
                &&& r == Ok::<(), ReserveError>(())
                &&& final(self).bytes() == bytes@ + old(self).bytes()
                &&& final(self).start_spec() == old(self).start_spec() - bytes@.len()
            } else {
                &&& r == Err::<(), ReserveError>(
                    ReserveError::InsufficientHeadroom {
                        available: old(self).headroom_spec() as usize,
                        requested: bytes@.len() as usize,
                    },
                )
                &&& *final(self) == *old(self)
            },
    {
        let available: usize = self.headroom();
        let requested: usize = bytes.len();
        if requested > available {
            return Err(ReserveError::InsufficientHeadroom { available, requested });
        }
        let new_start: usize = self.start - requested;
        write_bytes(&mut self.storage, new_start, bytes);
        self.start = new_start;
        proof {
            assert(self.bytes() =~= bytes@ + old(self).bytes());
        }
        Ok(())
    }

    /// Writes `bytes` directly behind the packet.
    pub fn extend_from_slice(&mut self, bytes: &[u8]) -> (r: Result<(), BufferAccessError>)
        requires
            old(self).wf(),
        ensures
            final(self).wf(),
            final(self).layout_spec() == old(self).layout_spec(),
            final(self).storage_spec().len() == old(self).storage_spec().len(),
            final(self).start_spec() == old(self).start_spec(),
            if bytes@.len() <= old(self).tailroom_spec() {
                &&& r == Ok::<(), BufferAccessError>(())
                &&& final(self).bytes() == old(self).bytes() + bytes@
                &&& final(self).end_spec() == old(self).end_spec() + bytes@.len()
            } else {
                &&& r == Err::<(), BufferAccessError>(
                    BufferAccessError::InsufficientTailroom {
                        available: old(self).tailroom_spec() as usize,
                        requested: bytes@.len() as usize,
                    },
                )
                &&& *final(self) == *old(self)
            },
    {
        let available: usize = self.tailroom();
        let requested: usize = bytes.len();
        if requested > available {
            return Err(BufferAccessError::InsufficientTailroom { available, requested });
        }
        let end: usize = self.end;
        write_bytes(&mut self.storage, end, bytes);
        self.end = end + requested;
        proof {
            assert(self.bytes() =~= old(self).bytes() + bytes@);
        }
        Ok(())
    }

    /// Gives the first `len` packet bytes back to the headroom.
    pub fn trim_prefix(&mut self, len: usize) -> (r: Result<(), BufferAccessError>)
        requires
            old(self).wf(),
        ensures
            final(self).wf(),
            final(self).layout_spec() == old(self).layout_spec(),
            final(self).storage_spec() == old(self).storage_spec(),
            final(self).end_spec() == old(self).end_spec(),
            if len <= old(self).bytes().len() {
                &&& r == Ok::<(), BufferAccessError>(())
                &&& final(self).bytes() == old(self).bytes().skip(len as int)
                &&& final(self).start_spec() == old(self).start_spec() + len
            } else {
                &&& r == Err::<(), BufferAccessError>(
                    BufferAccessError::OutOfBounds {
                        offset: 0,
                        len,
                        packet_len: old(self).bytes().len() as usize,
                    },
                )
                &&& *final(self) == *old(self)
            },
    {
        let packet_len: usize = self.len();
        if len > packet_len {
            return Err(BufferAccessError::OutOfBounds { offset: 0, len, packet_len });
        }
        self.start = self.start + len;
        proof {
            assert(self.bytes() =~= old(self).bytes().skip(len as int));
        }
        Ok(())
    }

    /// Gives the last `len` packet bytes back to the tailroom.
    pub fn trim_suffix(&mut self, len: usize) -> (r: Result<(), BufferAccessError>)
        requires
            old(self).wf(),
        ensures
            final(self).wf(),
            final(self).layout_spec() == old(self).layout_spec(),
            final(self).storage_spec() == old(self).storage_spec(),
            final(self).start_spec() == old(self).start_spec(),
            if len <= old(self).bytes().len() {
                &&& r == Ok::<(), BufferAccessError>(())
                &&& final(self).bytes() == old(self).bytes().take(old(self).bytes().len() - len)
                &&& final(self).end_spec() == old(self).end_spec() - len
            } else {
                &&& r == Err::<(), BufferAccessError>(
                    BufferAccessError::OutOfBounds {
                        offset: 0,
                        len,
                        packet_len: old(self).bytes().len() as usize,
                    },
                )
                &&& *final(self) == *old(self)
            },
    {
        let packet_len: usize = self.len();
        if len > packet_len {
            return Err(
                BufferAccessError::OutOfBounds {
                    offset: packet_len.saturating_sub(len),
                    len,
                    packet_len,
                },
            );
        }
        self.end = self.end - len;
        proof {
            assert(self.bytes() =~= old(self).bytes().take(old(self).bytes().len() - len));
        }
        Ok(())
    }

    /// Declares the `len` bytes from the data offset on to be the packet.
    pub fn set_received_len(&mut self, len: usize) -> (r: Result<(), BufferAccessError>)
        requires
            old(self).wf(),
            old(self).storage_spec().len() == old(self).layout_spec()@.chunk_size,
        ensures
            final(self).wf(),
            final(self).layout_spec() == old(self).layout_spec(),
            final(self).storage_spec() == old(self).storage_spec(),
            if len <= old(self).layout_spec()@.payload_capacity {
                &&& r == Ok::<(), BufferAccessError>(())
                &&& final(self).start_spec() == old(self).layout_spec()@.data_offset
                &&& final(self).end_spec() == old(self).layout_spec()@.data_offset + len
            } else {
                &&& r == Err::<(), BufferAccessError>(
                    BufferAccessError::InsufficientTailroom {
                        available: old(self).layout_spec()@.payload_capacity as usize,
                        requested: len,
                    },
                )
                &&& *final(self) == *old(self)
            },
    {
        let capacity: usize = self.layout.payload_capacity();
        if len > capacity {
            return Err(
                BufferAccessError::InsufficientTailroom { available: capacity, requested: len },
            );
        }
        self.start = self.layout.data_offset();
        self.end = self.start + len;
        Ok(())
    }

    /// Returns the bytes from the data offset on that the payload may fill.
    pub fn data_area_mut(&mut self) -> (r: &mut [u8])
        requires
            old(self).wf(),
            old(self).storage_spec().len() == old(self).layout_spec()@.chunk_size,
        ensures
            r@ == old(self).data_area(),
            final(r)@.len() == r@.len() ==> {
                &&& final(self).wf()
                &&& final(self).data_area() == final(r)@
                &&& final(self).start_spec() == old(self).start_spec()
                &&& final(self).end_spec() == old(self).end_spec()
                &&& final(self).layout_spec() == old(self).layout_spec()
                &&& final(self).storage_spec().len() == old(self).storage_spec().len()
            },
    {
        let start: usize = self.layout.data_offset();
        let length: usize = self.layout.payload_capacity();
        let (_before, rest) = self.storage.as_mut_slice().split_at_mut(start);
        let (area, _after) = rest.split_at_mut(length);
        area
    }

    /// The bytes from the data offset on that the payload may fill.
    pub open spec fn data_area(&self) -> Seq<u8> {
        self.storage_spec().subrange(
            self.layout_spec()@.data_offset,
            self.layout_spec()@.data_offset + self.layout_spec()@.payload_capacity,
        )
    }

    /// Moves the packet into new storage with the given headroom and tailroom.
    ///
    /// The payload capacity becomes the larger of the old capacity and the
    /// packet length. The other layout facts are kept.
    pub fn relocate(&mut self, headroom: usize, tailroom: usize)
        requires
            old(self).wf(),
            relocated_payload_capacity(*old(self)) + headroom + tailroom
                + old(self).layout_spec()@.l2_headroom <= usize::MAX,
        ensures
            final(self).wf(),
            final(self).bytes() == old(self).bytes(),
            final(self).headroom_spec() == headroom,
            final(self).tailroom_spec() == tailroom + relocated_payload_capacity(*old(self))
                - old(self).bytes().len(),
            final(self).layout_spec()@.l2_headroom == old(self).layout_spec()@.l2_headroom,
            final(self).layout_spec()@.headroom == headroom,
            final(self).layout_spec()@.tailroom == tailroom,
            final(self).layout_spec()@.payload_capacity == relocated_payload_capacity(*old(self)),
            final(self).layout_spec()@.align == old(self).layout_spec()@.align,
            final(self).layout_spec()@.max_segments == old(self).layout_spec()@.max_segments,
    {
        let length: usize = self.len();
        let capacity: usize = if self.layout.payload_capacity() < length {
            length
        } else {
            self.layout.payload_capacity()
        };
        proof {
            assert((self.layout@.l2_headroom + headroom) % 1 == 0);
        }
        let layout = BufferLayout::with_headroom_and_tailroom(
            capacity,
            headroom,
            tailroom,
        ).with_l2_headroom(self.layout.l2_headroom()).with_alignment(
            self.layout.align(),
        ).with_max_segments(self.layout.max_segments());
        let mut storage: Vec<u8> = vec![0u8; layout.allocation_len()];
        let start: usize = layout.data_offset();
        write_bytes(&mut storage, start, self.as_slice());
        let ghost packet = self.bytes();
        self.storage = storage;
        self.start = start;
        self.end = start + length;
        self.layout = layout;
        proof {
            assert(self.bytes() =~= packet);
        }
    }
}

/// The payload capacity after a relocation of `packet`.
pub open spec fn relocated_payload_capacity(packet: PacketMemory) -> int {
    if packet.layout_spec()@.payload_capacity < packet.bytes().len() {
        packet.bytes().len() as int
    } else {
        packet.layout_spec()@.payload_capacity
    }
}

/// Memory of a packet is empty behind its layout's headrooms, or filled to the brim.
pub proof fn law_packet_memory_starts_empty_or_full(
    storage: Vec<u8>,
    layout: BufferLayout,
    r: PacketMemory,
)
    ensures
        call_ensures(PacketMemory::from_storage, (storage, layout), r) && layout.wf()
            && storage@.len() == layout@.chunk_size ==> {
            &&& r.bytes().len() == 0
            &&& r.headroom_spec() == layout@.headroom
            &&& r.tailroom_spec() + layout@.data_offset == layout@.chunk_size
            &&& r.layout_spec() == layout
        },
        call_ensures(PacketMemory::filled, (storage, layout), r) ==> r.bytes() == storage@
            && r.headroom_spec() == 0 && r.tailroom_spec() == 0,
        forall|whole: Vec<u8>| #[trigger]
            call_ensures(PacketMemory::into_storage, (r,), whole) ==> whole@ == r.storage_spec(),
{
}

/// A packet that moves to other memory keeps its bytes and its link-layer headroom, and has
/// the headroom and at least the tailroom that it was moved for.
pub proof fn law_moved_packets_keep_their_bytes(headroom: usize, tailroom: usize)
    ensures
        forall|packet: &mut PacketMemory| #[trigger]
            call_ensures(PacketMemory::relocate, (packet, headroom, tailroom), ()) ==> {
                let payload = packet.layout_spec()@.payload_capacity;
                &&& final(packet).bytes() == packet.bytes()
                &&& final(packet).headroom_spec() == headroom
                &&& final(packet).tailroom_spec() >= tailroom
                &&& packet.bytes().len() < payload ==> final(packet).tailroom_spec()
                    == tailroom + payload - packet.bytes().len()
                &&& packet.bytes().len() >= payload ==> final(packet).tailroom_spec() == tailroom
                &&& final(packet).layout_spec()@.l2_headroom
                    == packet.layout_spec()@.l2_headroom
                &&& final(packet).layout_spec()@.headroom == headroom
                &&& final(packet).layout_spec()@.tailroom == tailroom
            },
{
}

} // verus!
