//! Packet buffer traits and layout types.

use vstd::arithmetic::power2::pow2;
use vstd::prelude::*;
use vstd::string::*;

use crate::bytes::copy_bytes;
use crate::text::{decimal_text, push_decimal};

verus! {

/// A borrowed packet segment.
pub type Segment<'a> = &'a [u8];

/// Borrowed scatter-gather view over packet segments.
#[derive(Clone, Copy, Debug)]
pub struct ScatterGather<'a> {
    segments: &'a [&'a [u8]],
}

impl<'a> ScatterGather<'a> {
    /// The segments in packet-byte order.
    pub closed spec fn view(&self) -> Seq<&'a [u8]> {
        self.segments@
    }

    /// Creates a scatter-gather view from a borrowed segment slice.
    #[must_use]
    pub fn new(segments: &'a [&'a [u8]]) -> (r: Self)
        ensures
            r@ == segments@,
    {
        ScatterGather { segments }
    }

    /// Returns the borrowed segments.
    #[must_use]
    pub fn segments(self) -> (r: &'a [&'a [u8]])
        ensures
            r@ == self@,
    {
        self.segments
    }
}

/// `n` is a power of two.
pub open spec fn is_power_of_two(n: int) -> bool {
    exists|k: nat| n == #[trigger] pow2(k)
}

/// Buffer layout facts shared by pools and queues.
#[derive(Clone, Copy, Debug, Eq, PartialEq, Structural)]
pub struct BufferLayout {
    payload_capacity: usize,
    headroom: usize,
    tailroom: usize,
    chunk_size: usize,
    data_offset: usize,
    align: usize,
    stride: usize,
    max_segments: usize,
    l2_headroom: usize,
    chunk_fixed: bool,
}

/// The facts of a layout as numbers.
pub struct LayoutFacts {
    /// Usable packet payload capacity.
    pub payload_capacity: int,
    /// Public prefix space before the initial packet start.
    pub headroom: int,
    /// Public suffix space after the initial packet end.
    pub tailroom: int,
    /// Backing chunk size.
    pub chunk_size: int,
    /// Initial offset from backing memory to packet bytes.
    pub data_offset: int,
    /// Required data alignment.
    pub align: int,
    /// Distance between chunks.
    pub stride: int,
    /// Maximum scatter-gather segment count.
    pub max_segments: int,
    /// Link-layer headroom before the public headroom.
    pub l2_headroom: int,
    /// The chunk size and stride were set explicitly.
    pub chunk_fixed: bool,
}

impl LayoutFacts {
    /// Bytes that a chunk needs for its prefix, payload and suffix.
    pub open spec fn minimum_chunk_size(self) -> int {
        self.data_offset + self.payload_capacity + self.tailroom
    }

    /// The field invariants of a layout.
    pub open spec fn consistent(self) -> bool {
        &&& 0 <= self.payload_capacity
        &&& 0 <= self.headroom
        &&& 0 <= self.tailroom
        &&& 0 <= self.l2_headroom
        &&& self.data_offset == self.l2_headroom + self.headroom
        &&& self.chunk_size >= self.minimum_chunk_size()
        &&& self.stride >= self.chunk_size
        &&& self.stride <= usize::MAX
        &&& self.max_segments >= 1
        &&& is_power_of_two(self.align)
    }
}

impl BufferLayout {
    /// The layout's facts.
    pub closed spec fn view(&self) -> LayoutFacts {
        LayoutFacts {
            payload_capacity: self.payload_capacity as int,
            headroom: self.headroom as int,
            tailroom: self.tailroom as int,
            chunk_size: self.chunk_size as int,
            data_offset: self.data_offset as int,
            align: self.align as int,
            stride: self.stride as int,
            max_segments: self.max_segments as int,
            l2_headroom: self.l2_headroom as int,
            chunk_fixed: self.chunk_fixed,
        }
    }

    /// The layout keeps the field invariants.
    pub open spec fn wf(&self) -> bool {
        self@.consistent()
    }

    /// Creates a contiguous packet layout with no explicit headroom or tailroom.
    #[must_use]
    pub fn new(payload_capacity: usize) -> (r: Self)
        ensures
            r.wf(),
            r@ == contiguous_layout(payload_capacity as int, 0, 0),
    {
        Self::with_headroom_and_tailroom(payload_capacity, 0, 0)
    }

    /// Creates a layout for a payload of at most `payload_capacity` bytes,
    /// rounded up to at least 2 KiB so that a buffer holds an MTU-sized frame
    /// after link-layer headroom is added.
    #[must_use]
    pub fn for_payload(payload_capacity: usize) -> (r: Self)
        ensures
            r.wf(),
            r@ == contiguous_layout(
                if payload_capacity < 2048 {
                    2048
                } else {
                    payload_capacity as int
                },
                0,
                0,
            ),
    {
        if payload_capacity < 2048 {
            Self::new(2048)
        } else {
            Self::new(payload_capacity)
        }
    }

    /// Creates a contiguous packet layout with public headroom and tailroom.
    #[must_use]
    pub fn with_headroom_and_tailroom(
        payload_capacity: usize,
        headroom: usize,
        tailroom: usize,
    ) -> (r: Self)
        requires
            headroom + payload_capacity + tailroom <= usize::MAX,
        ensures
            r.wf(),
            r@ == contiguous_layout(payload_capacity as int, headroom as int, tailroom as int),
    {
        let chunk_size: usize = headroom + payload_capacity + tailroom;
        proof {
            vstd::arithmetic::power2::lemma2_to64();
            assert(1 == pow2(0));
        }
        BufferLayout {
            payload_capacity,
            headroom,
            tailroom,
            chunk_size,
            data_offset: headroom,
            align: 1,
            stride: chunk_size,
            max_segments: 1,
            l2_headroom: 0,
            chunk_fixed: false,
        }
    }

    /// Returns a copy of this layout with link-layer headroom.
    ///
    /// Unless the chunk has been fixed with [`Self::with_fixed_chunk`], the
    /// chunk size and stride grow with the new data offset. A fixed chunk is
    /// kept and must still be large enough. The new data offset must be a
    /// multiple of the alignment.
    #[must_use]
    pub fn with_l2_headroom(self, l2_headroom: usize) -> (r: Self)
        requires
            self.wf(),
            l2_headroom + self@.headroom + self@.payload_capacity + self@.tailroom <= usize::MAX,
            (l2_headroom + self@.headroom) % self@.align == 0,
            self@.chunk_fixed ==> self@.chunk_size >= l2_headroom + self@.headroom
                + self@.payload_capacity + self@.tailroom,
        ensures
            r.wf(),
            r@ == layout_with_l2_headroom(self@, l2_headroom as int),
    {
        let mut layout = self;
        layout.l2_headroom = l2_headroom;
        layout.data_offset = l2_headroom + self.headroom;
        if !self.chunk_fixed {
            layout.chunk_size = layout.data_offset + self.payload_capacity + self.tailroom;
            layout.stride = layout.chunk_size;
        }
        layout
    }

    /// Returns a copy of this layout with a required data alignment, which must
    /// be a power of two.
    #[must_use]
    pub fn with_alignment(self, align: usize) -> (r: Self)
        requires
            self.wf(),
            is_power_of_two(align as int),
        ensures
            r.wf(),
            r@ == (LayoutFacts { align: align as int, ..self@ }),
    {
        let mut layout = self;
        layout.align = align;
        layout
    }

    /// Returns a copy of this layout with a maximum segment count of at least 1.
    #[must_use]
    pub fn with_max_segments(self, max_segments: usize) -> (r: Self)
        requires
            self.wf(),
            max_segments >= 1,
        ensures
            r.wf(),
            r@ == (LayoutFacts { max_segments: max_segments as int, ..self@ }),
    {
        let mut layout = self;
        layout.max_segments = max_segments;
        layout
    }

    /// Returns a copy of this layout with fixed chunk and stride facts.
    ///
    /// `chunk_size` must fit the link-layer headroom, public headroom, payload
    /// capacity and tailroom, and `stride` must be at least `chunk_size`.
    #[must_use]
    pub fn with_fixed_chunk(self, chunk_size: usize, stride: usize) -> (r: Self)
        requires
            self.wf(),
            chunk_size >= self@.minimum_chunk_size(),
            stride >= chunk_size,
        ensures
            r.wf(),
            r@ == (LayoutFacts {
                chunk_size: chunk_size as int,
                stride: stride as int,
                chunk_fixed: true,
                ..self@
            }),
    {
        let mut layout = self;
        layout.chunk_size = chunk_size;
        layout.stride = stride;
        layout.chunk_fixed = true;
        layout
    }

    /// Usable packet payload capacity.
    #[must_use]
    pub fn payload_capacity(self) -> (r: usize)
        ensures
            r == self@.payload_capacity,
    {
        self.payload_capacity
    }

    /// Public prefix space before the initial packet start.
    #[must_use]
    pub fn headroom(self) -> (r: usize)
        ensures
            r == self@.headroom,
    {
        self.headroom
    }

    /// Public suffix space after the initial packet end.
    #[must_use]
    pub fn tailroom(self) -> (r: usize)
        ensures
            r == self@.tailroom,
    {
        self.tailroom
    }

    /// Backing chunk size for fixed-size packet memory.
    #[must_use]
    pub fn chunk_size(self) -> (r: usize)
        ensures
            r == self@.chunk_size,
    {
        self.chunk_size
    }

    /// Initial offset from backing memory to packet bytes.
    #[must_use]
    pub fn data_offset(self) -> (r: usize)
        ensures
            r == self@.data_offset,
    {
        self.data_offset
    }

    /// Required data alignment.
    #[must_use]
    pub fn align(self) -> (r: usize)
        ensures
            r == self@.align,
    {
        self.align
    }

    /// Distance between fixed-size chunks.
    #[must_use]
    pub fn stride(self) -> (r: usize)
        ensures
            r == self@.stride,
    {
        self.stride
    }

    /// Maximum supported scatter-gather segment count.
    #[must_use]
    pub fn max_segments(self) -> (r: usize)
        ensures
            r == self@.max_segments,
    {
        self.max_segments
    }

    /// Link-layer headroom before the public headroom.
    #[must_use]
    pub fn l2_headroom(self) -> (r: usize)
        ensures
            r == self@.l2_headroom,
    {
        self.l2_headroom
    }

    /// Total contiguous allocation length needed for one packet chunk.
    #[must_use]
    pub fn allocation_len(self) -> (r: usize)
        ensures
            r == self@.chunk_size,
    {
        self.chunk_size
    }
}

/// A single-segment layout whose chunk is exactly prefix, payload and suffix.
pub open spec fn contiguous_layout(
    payload_capacity: int,
    headroom: int,
    tailroom: int,
) -> LayoutFacts {
    LayoutFacts {
        payload_capacity,
        headroom,
        tailroom,
        chunk_size: headroom + payload_capacity + tailroom,
        data_offset: headroom,
        align: 1,
        stride: headroom + payload_capacity + tailroom,
        max_segments: 1,
        l2_headroom: 0,
        chunk_fixed: false,
    }
}

/// `facts` with link-layer headroom; a chunk that is not fixed is resized to fit.
pub open spec fn layout_with_l2_headroom(facts: LayoutFacts, l2_headroom: int) -> LayoutFacts {
    let data_offset = l2_headroom + facts.headroom;
    let fitted = data_offset + facts.payload_capacity + facts.tailroom;
    LayoutFacts {
        l2_headroom,
        data_offset,
        chunk_size: if facts.chunk_fixed {
            facts.chunk_size
        } else {
            fitted
        },
        stride: if facts.chunk_fixed {
            facts.stride
        } else {
            fitted
        },
        ..facts
    }
}

/// Fixing a chunk and adding link-layer headroom that still fits commute: the
/// fixed chunk survives, and the data offset is the same either way.
pub proof fn law_fixed_chunk_survives_l2_headroom(
    facts: LayoutFacts,
    l2_headroom: int,
    chunk_size: int,
    stride: int,
)
    requires
        facts.consistent(),
        0 <= l2_headroom,
        chunk_size >= l2_headroom + facts.headroom + facts.payload_capacity + facts.tailroom,
    ensures
        layout_with_l2_headroom(
            LayoutFacts { chunk_size, stride, chunk_fixed: true, ..facts },
            l2_headroom,
        ) == (LayoutFacts {
            chunk_size,
            stride,
            chunk_fixed: true,
            ..layout_with_l2_headroom(facts, l2_headroom)
        }),
{
}

/// Per-queue buffer layout and depth configuration.
#[derive(Clone, Copy, Debug)]
pub struct QueueBufferConfig {
    /// Receive buffer layout.
    pub rx: BufferLayout,
    /// Transmit buffer layout.
    pub tx: BufferLayout,
    /// Receive queue depth when known.
    pub rx_depth: Option<usize>,
    /// Transmit queue depth when known.
    pub tx_depth: Option<usize>,
}

/// Static or queue-local buffer capability facts.
#[derive(Clone, Copy, Debug, Eq, PartialEq, Structural)]
pub struct BufferCapabilities {
    /// Maximum packet length accepted by this buffer configuration.
    pub max_packet_len: usize,
    /// Maximum public headroom available without reallocation.
    pub max_headroom: usize,
    /// Maximum public tailroom available without reallocation.
    pub max_tailroom: usize,
    /// Maximum scatter-gather segment count.
    pub max_segments: usize,
    /// Whether the backing memory is DMA-capable.
    pub dma_capable: bool,
    /// Whether the backing memory is externally registered.
    pub externally_registered: bool,
}

/// Error returned by packet buffer accessors.
#[derive(Clone, Copy, Debug, Eq, PartialEq, Structural)]
pub enum BufferAccessError {
    /// The requested offset/length is outside the current packet bytes.
    OutOfBounds {
        /// Requested byte offset.
        offset: usize,
        /// Requested byte length.
        len: usize,
        /// Current packet length.
        packet_len: usize,
    },
    /// The append operation did not fit in the available tailroom.
    InsufficientTailroom {
        /// Available tailroom bytes.
        available: usize,
        /// Requested append bytes.
        requested: usize,
    },
}

impl BufferAccessError {
    /// The text that describes this error.
    pub open spec fn message_text(self) -> Seq<char> {
        match self {
            BufferAccessError::OutOfBounds { offset, len, packet_len } => {
                "buffer access out of bounds: offset "@ + decimal_text(offset as nat)
                    + ", length "@ + decimal_text(len as nat) + ", packet length "@
                    + decimal_text(packet_len as nat)
            },
            BufferAccessError::InsufficientTailroom { available, requested } => {
                shortage_text("insufficient tailroom: requested "@, requested, available)
            },
        }
    }

    /// Renders this error for people.
    pub fn message(&self) -> (r: String)
        ensures
            r@ == self.message_text(),
    {
        match self {
            BufferAccessError::OutOfBounds { offset, len, packet_len } => {
                let mut out = "buffer access out of bounds: offset ".to_owned();
                push_decimal(&mut out, *offset as u64);
                out.append(", length ");
                push_decimal(&mut out, *len as u64);
                out.append(", packet length ");
                push_decimal(&mut out, *packet_len as u64);
                out
            },
            BufferAccessError::InsufficientTailroom { available, requested } => {
                shortage_message("insufficient tailroom: requested ", *requested, *available)
            },
        }
    }
}

/// The text of a shortage: what was requested and what is available.
pub open spec fn shortage_text(intro: Seq<char>, requested: usize, available: usize) -> Seq<char> {
    intro + decimal_text(requested as nat) + ", available "@ + decimal_text(available as nat)
}

fn shortage_message(intro: &str, requested: usize, available: usize) -> (r: String)
    ensures
        r@ == shortage_text(intro@, requested, available),
{
    let mut out = intro.to_owned();
    push_decimal(&mut out, requested as u64);
    out.append(", available ");
    push_decimal(&mut out, available as u64);
    out
}

/// Error returned by prefix and tail prepend/append operations.
#[derive(Clone, Copy, Debug, Eq, PartialEq, Structural)]
pub enum ReserveError {
    /// Not enough public headroom to satisfy the request.
    InsufficientHeadroom {
        /// Available public headroom bytes.
        available: usize,
        /// Requested write bytes.
        requested: usize,
    },
    /// Not enough tailroom to satisfy the request.
    InsufficientTailroom {
        /// Available tailroom bytes.
        available: usize,
        /// Requested write bytes.
        requested: usize,
    },
    /// A tail write would cross a segment or fixed chunk boundary.
    SegmentBoundary,
    /// The buffer layout cannot expand in the requested direction.
    LayoutUnsupported,
}

impl ReserveError {
    /// The text that describes this error.
    pub open spec fn message_text(self) -> Seq<char> {
        match self {
            ReserveError::InsufficientHeadroom { available, requested } => {
                shortage_text("insufficient headroom: requested "@, requested, available)
            },
            ReserveError::InsufficientTailroom { available, requested } => {
                shortage_text("insufficient tailroom: requested "@, requested, available)
            },
            ReserveError::SegmentBoundary => "write would cross a segment boundary"@,
            ReserveError::LayoutUnsupported => "buffer layout does not support this write"@,
        }
    }

    /// Renders this error for people.
    pub fn message(&self) -> (r: String)
        ensures
            r@ == self.message_text(),
    {
        match self {
            ReserveError::InsufficientHeadroom { available, requested } => {
                shortage_message("insufficient headroom: requested ", *requested, *available)
            },
            ReserveError::InsufficientTailroom { available, requested } => {
                shortage_message("insufficient tailroom: requested ", *requested, *available)
            },
            ReserveError::SegmentBoundary => "write would cross a segment boundary".to_owned(),
            ReserveError::LayoutUnsupported => {
                "buffer layout does not support this write".to_owned()
            },
        }
    }
}

/// The bytes of all segments in order.
pub open spec fn joined_segments(segments: Seq<&[u8]>) -> Seq<u8>
    decreases segments.len(),
{
    if segments.len() == 0 {
        Seq::empty()
    } else {
        joined_segments(segments.drop_last()) + segments.last()@
    }
}

/// Immutable packet buffer.
pub trait PacketBuffer {
    /// The buffer's bookkeeping is consistent.
    closed spec fn wf(&self) -> bool {
        true
    }

    /// The packet bytes.
    closed spec fn bytes(&self) -> Seq<u8> {
        arbitrary()
    }

    /// Public prefix space currently available before the packet.
    closed spec fn headroom_spec(&self) -> nat {
        arbitrary()
    }

    /// Public suffix space currently available after the packet.
    closed spec fn tailroom_spec(&self) -> nat {
        arbitrary()
    }

    /// The layout used to allocate this buffer.
    closed spec fn layout_spec(&self) -> BufferLayout {
        arbitrary()
    }

    /// The packet is a single segment.
    closed spec fn is_contiguous(&self) -> bool {
        arbitrary()
    }

    /// Returns the total packet length across all segments.
    fn len(&self) -> (r: usize)
        requires
            self.wf(),
        ensures
            r == self.bytes().len(),
    ;

    /// Returns `true` when the packet has no bytes.
    fn is_empty(&self) -> (r: bool)
        requires
            self.wf(),
        ensures
            r == (self.bytes().len() == 0),
    {
        self.len() == 0
    }

    /// Returns public prefix space currently available before the packet.
    fn headroom(&self) -> (r: usize)
        requires
            self.wf(),
        ensures
            r == self.headroom_spec(),
    ;

    /// Returns public suffix space currently available after the packet.
    fn tailroom(&self) -> (r: usize)
        requires
            self.wf(),
        ensures
            r == self.tailroom_spec(),
    ;

    /// Returns the layout used to allocate this buffer.
    fn layout(&self) -> (r: &BufferLayout)
        requires
            self.wf(),
        ensures
            *r == self.layout_spec(),
    ;

    /// Returns the packet segments in packet-byte order.
    fn segments(&self) -> (r: Vec<&[u8]>)
        requires
            self.wf(),
        ensures
            joined_segments(r@) == self.bytes(),
            self.bytes().len() > 0 ==> (r@.len() == 1 <==> self.is_contiguous()),
    ;

    /// Returns the first packet segment, if the packet has one.
    fn first_segment(&self) -> (r: Option<&[u8]>)
        requires
            self.wf(),
        ensures
            r matches Some(segment) ==> segment@.is_prefix_of(self.bytes()),
            r is None ==> self.bytes().len() == 0,
    {
        let segments = self.segments();
        if segments.len() == 0 {
            None
        } else {
            proof {
                lemma_first_segment_is_prefix(segments@);
            }
            Some(segments[0])
        }
    }

    /// Returns the whole packet as one slice when it is a single segment.
    fn contiguous(&self) -> (r: Option<&[u8]>)
        requires
            self.wf(),
        ensures
            self.bytes().len() > 0 ==> (r is Some <==> self.is_contiguous()),
            r matches Some(packet) ==> packet@ == self.bytes(),
    {
        let segments = self.segments();
        if segments.len() == 1 {
            proof {
                assert(segments@.drop_last() =~= Seq::empty());
                assert(joined_segments(segments@.drop_last()) =~= Seq::<u8>::empty());
                assert(joined_segments(segments@) =~= segments@[0]@);
            }
            Some(segments[0])
        } else {
            None
        }
    }

    /// Reads exactly `dst.len()` bytes at `offset` across packet segments.
    fn read_at_exact(&self, offset: usize, dst: &mut [u8]) -> (r: Result<(), BufferAccessError>)
        requires
            self.wf(),
        ensures
            read_outcome(self.bytes(), offset, old(dst)@, final(dst)@, r),
    ;
}

/// The outcome of reading `before.len()` bytes of `packet` at `offset`.
pub open spec fn read_outcome(
    packet: Seq<u8>,
    offset: usize,
    before: Seq<u8>,
    after: Seq<u8>,
    result: Result<(), BufferAccessError>,
) -> bool {
    if offset + before.len() <= packet.len() {
        &&& result is Ok
        &&& after == packet.subrange(offset as int, offset + before.len())
    } else {
        &&& result == Err::<(), BufferAccessError>(
            BufferAccessError::OutOfBounds {
                offset,
                len: before.len() as usize,
                packet_len: packet.len() as usize,
            },
        )
        &&& after == before
    }
}

/// At most one segment: the segments join to that segment, or to nothing.
pub proof fn lemma_joined_single(segments: Seq<&[u8]>, packet: Seq<u8>)
    requires
        segments.len() == 0 ==> packet.len() == 0,
        segments.len() > 0 ==> segments.len() == 1 && segments[0]@ == packet,
    ensures
        joined_segments(segments) == packet,
{
    if segments.len() == 1 {
        assert(segments.drop_last() =~= Seq::empty());
        assert(joined_segments(segments.drop_last()) =~= Seq::<u8>::empty());
    }
    assert(joined_segments(segments) =~= packet);
}

proof fn lemma_first_segment_is_prefix(segments: Seq<&[u8]>)
    requires
        segments.len() > 0,
    ensures
        segments[0]@.is_prefix_of(joined_segments(segments)),
    decreases segments.len(),
{
    let shorter = segments.drop_last();
    if shorter.len() > 0 {
        lemma_first_segment_is_prefix(shorter);
        assert(shorter[0] == segments[0]);
    } else {
        assert(joined_segments(shorter) =~= Seq::<u8>::empty());
    }
}

/// Reads exactly `dst.len()` bytes of a contiguous packet at `offset`.
pub fn read_contiguous(packet: &[u8], offset: usize, dst: &mut [u8]) -> (r: Result<
    (),
    BufferAccessError,
>)
    ensures
        read_outcome(packet@, offset, old(dst)@, final(dst)@, r),
{
    let len: usize = dst.len();
    if len > packet.len() || offset > packet.len() - len {
        return Err(BufferAccessError::OutOfBounds { offset, len, packet_len: packet.len() });
    }
    copy_bytes(dst, vstd::slice::slice_subrange(packet, offset, offset + len));
    Ok(())
}

/// What a packet buffer holds: its bytes and the free space around them.
#[verifier::ext_equal]
pub struct PacketState {
    /// The packet bytes.
    pub bytes: Seq<u8>,
    /// Public prefix space before the packet.
    pub headroom: nat,
    /// Public suffix space after the packet.
    pub tailroom: nat,
}

/// The state of a packet buffer.
pub open spec fn packet_state<B: PacketBuffer>(buffer: B) -> PacketState {
    PacketState {
        bytes: buffer.bytes(),
        headroom: buffer.headroom_spec(),
        tailroom: buffer.tailroom_spec(),
    }
}

/// The outcome of prepending `prefix`: it fits in the headroom, or nothing changes.
pub open spec fn prepended(state: PacketState, prefix: Seq<u8>) -> (
    Result<(), ReserveError>,
    PacketState,
) {
    if prefix.len() <= state.headroom {
        (
            Ok(()),
            PacketState {
                bytes: prefix + state.bytes,
                headroom: (state.headroom - prefix.len()) as nat,
                ..state
            },
        )
    } else {
        (
            Err(
                ReserveError::InsufficientHeadroom {
                    available: state.headroom as usize,
                    requested: prefix.len() as usize,
                },
            ),
            state,
        )
    }
}

/// The outcome of appending `suffix`: it fits in the tailroom, or nothing changes.
pub open spec fn extended(state: PacketState, suffix: Seq<u8>) -> (
    Result<(), BufferAccessError>,
    PacketState,
) {
    if suffix.len() <= state.tailroom {
        (
            Ok(()),
            PacketState {
                bytes: state.bytes + suffix,
                tailroom: (state.tailroom - suffix.len()) as nat,
                ..state
            },
        )
    } else {
        (
            Err(
                BufferAccessError::InsufficientTailroom {
                    available: state.tailroom as usize,
                    requested: suffix.len() as usize,
                },
            ),
            state,
        )
    }
}

/// The error for trimming more bytes than the packet has.
pub open spec fn trim_error(state: PacketState, len: usize) -> BufferAccessError {
    BufferAccessError::OutOfBounds { offset: 0, len, packet_len: state.bytes.len() as usize }
}

/// The outcome of trimming `len` bytes from the front into the headroom.
pub open spec fn prefix_trimmed(state: PacketState, len: usize) -> (
    Result<(), BufferAccessError>,
    PacketState,
) {
    if len <= state.bytes.len() {
        (
            Ok(()),
            PacketState {
                bytes: state.bytes.skip(len as int),
                headroom: state.headroom + len as nat,
                ..state
            },
        )
    } else {
        (Err(trim_error(state, len)), state)
    }
}

/// The outcome of trimming `len` bytes from the back into the tailroom.
pub open spec fn suffix_trimmed(state: PacketState, len: usize) -> (
    Result<(), BufferAccessError>,
    PacketState,
) {
    if len <= state.bytes.len() {
        (
            Ok(()),
            PacketState {
                bytes: state.bytes.take(state.bytes.len() - len),
                tailroom: state.tailroom + len as nat,
                ..state
            },
        )
    } else {
        (Err(trim_error(state, len)), state)
    }
}

/// Reading at the old end gives back what was appended.
pub proof fn law_read_gives_back_appended(
    state: PacketState,
    suffix: Seq<u8>,
    before: Seq<u8>,
    after: Seq<u8>,
    result: Result<(), BufferAccessError>,
)
    requires
        suffix.len() <= state.tailroom,
        state.bytes.len() <= usize::MAX,
        before.len() == suffix.len(),
        read_outcome(
            extended(state, suffix).1.bytes,
            state.bytes.len() as usize,
            before,
            after,
            result,
        ),
    ensures
        result is Ok,
        after == suffix,
{
    let bytes = extended(state, suffix).1.bytes;
    assert(bytes.subrange(state.bytes.len() as int, bytes.len() as int) =~= suffix);
}

/// Reading at the start gives back what was prepended.
pub proof fn law_read_gives_back_prepended(
    state: PacketState,
    prefix: Seq<u8>,
    before: Seq<u8>,
    after: Seq<u8>,
    result: Result<(), BufferAccessError>,
)
    requires
        prefix.len() <= state.headroom,
        before.len() == prefix.len(),
        read_outcome(prepended(state, prefix).1.bytes, 0, before, after, result),
    ensures
        result is Ok,
        after == prefix,
{
    let bytes = prepended(state, prefix).1.bytes;
    assert(bytes.subrange(0, prefix.len() as int) =~= prefix);
}

/// Trimming what was just prepended gives back the packet and its free space.
pub proof fn law_trim_prefix_undoes_prepend(state: PacketState, prefix: Seq<u8>)
    requires
        prefix.len() <= state.headroom,
        prefix.len() <= usize::MAX,
    ensures
        prefix_trimmed(prepended(state, prefix).1, prefix.len() as usize) == (
            Ok::<(), BufferAccessError>(()),
            state,
        ),
{
    assert((prefix + state.bytes).skip(prefix.len() as int) =~= state.bytes);
    assert(prefix_trimmed(prepended(state, prefix).1, prefix.len() as usize).1 =~= state);
}

/// Prepending what was just trimmed gives back the packet and its free space.
pub proof fn law_prepend_undoes_trim_prefix(state: PacketState, len: usize)
    requires
        len <= state.bytes.len(),
    ensures
        prepended(prefix_trimmed(state, len).1, state.bytes.take(len as int)) == (
            Ok::<(), ReserveError>(()),
            state,
        ),
{
    assert(state.bytes.take(len as int) + state.bytes.skip(len as int) =~= state.bytes);
    assert(prepended(prefix_trimmed(state, len).1, state.bytes.take(len as int)).1 =~= state);
}

/// Trimming what was just appended gives back the packet and its free space.
pub proof fn law_trim_suffix_undoes_extend(state: PacketState, suffix: Seq<u8>)
    requires
        suffix.len() <= state.tailroom,
        suffix.len() <= usize::MAX,
    ensures
        suffix_trimmed(extended(state, suffix).1, suffix.len() as usize) == (
            Ok::<(), BufferAccessError>(()),
            state,
        ),
{
    assert((state.bytes + suffix).take(state.bytes.len() as int) =~= state.bytes);
    assert(suffix_trimmed(extended(state, suffix).1, suffix.len() as usize).1 =~= state);
}

/// Appending what was just trimmed gives back the packet and its free space.
pub proof fn law_extend_undoes_trim_suffix(state: PacketState, len: usize)
    requires
        len <= state.bytes.len(),
    ensures
        extended(
            suffix_trimmed(state, len).1,
            state.bytes.skip(state.bytes.len() - len),
        ) == (Ok::<(), BufferAccessError>(()), state),
{
    let kept = state.bytes.len() - len;
    assert(state.bytes.take(kept) + state.bytes.skip(kept) =~= state.bytes);
    assert(extended(suffix_trimmed(state, len).1, state.bytes.skip(kept)).1 =~= state);
}

/// An edit that fails leaves the packet and its free space as they were, and an
/// edit that succeeds moves space between packet, headroom and tailroom without
/// changing their sum.
pub proof fn law_edits_conserve_space(state: PacketState, bytes: Seq<u8>, len: usize)
    ensures
        prepended(state, bytes).0 is Err ==> prepended(state, bytes).1 == state,
        extended(state, bytes).0 is Err ==> extended(state, bytes).1 == state,
        prefix_trimmed(state, len).0 is Err ==> prefix_trimmed(state, len).1 == state,
        suffix_trimmed(state, len).0 is Err ==> suffix_trimmed(state, len).1 == state,
        occupied_space(prepended(state, bytes).1) == occupied_space(state),
        occupied_space(extended(state, bytes).1) == occupied_space(state),
        occupied_space(prefix_trimmed(state, len).1) == occupied_space(state),
        occupied_space(suffix_trimmed(state, len).1) == occupied_space(state),
{
}

/// Headroom, packet and tailroom together.
pub open spec fn occupied_space(state: PacketState) -> nat {
    state.headroom + state.bytes.len() + state.tailroom
}

/// Mutable packet buffer.
pub trait PacketBufferMut: PacketBuffer + Sized {
    /// Immutable buffer type produced by freezing this buffer.
    type Frozen: PacketBuffer;

    /// Returns the first packet segment mutably, if the packet has one.
    fn first_segment_mut(&mut self) -> (r: Option<&mut [u8]>)
        requires
            old(self).wf(),
        ensures
            match r {
                Some(segment) => {
                    &&& segment@.is_prefix_of(old(self).bytes())
                    &&& final(segment)@.len() == segment@.len() ==> {
                        &&& final(self).wf()
                        &&& final(self).bytes() == final(segment)@ + old(self).bytes().skip(
                            segment@.len() as int,
                        )
                    }
                },
                None => old(self).bytes().len() == 0 && *final(self) == *old(self),
            },
    ;

    /// Returns the whole packet as one mutable slice when it is contiguous.
    fn contiguous_mut(&mut self) -> (r: Option<&mut [u8]>)
        requires
            old(self).wf(),
        ensures
            old(self).is_contiguous() && old(self).bytes().len() > 0 ==> r is Some,
            match r {
                Some(packet) => {
                    &&& packet@ == old(self).bytes()
                    &&& final(packet)@.len() == packet@.len() ==> final(self).wf() && final(self).bytes() == final(packet)@
                },
                None => *final(self) == *old(self),
            },
    ;

    /// Prepends bytes immediately before the current packet start.
    ///
    /// Fails with `InsufficientHeadroom` if there is not enough headroom; the
    /// packet is left unchanged in that case.
    fn prepend(&mut self, bytes: &[u8]) -> (r: Result<(), ReserveError>)
        requires
            old(self).wf(),
        ensures
            final(self).wf(),
            final(self).layout_spec() == old(self).layout_spec(),
            r == prepended(packet_state(*old(self)), bytes@).0,
            packet_state(*final(self)) == prepended(packet_state(*old(self)), bytes@).1,
    ;

    /// Prepends bytes, relocating the packet when the implementation supports it.
    fn prepend_relocating(&mut self, bytes: &[u8]) -> (r: Result<(), ReserveError>)
        requires
            old(self).wf(),
        ensures
            final(self).wf(),
            bytes@.len() <= old(self).headroom_spec() ==> r is Ok,
            r is Ok ==> final(self).bytes() == bytes@ + old(self).bytes(),
            r is Err ==> final(self).bytes() == old(self).bytes(),
        default_ensures
            final(self).layout_spec() == old(self).layout_spec(),
            r == prepended(packet_state(*old(self)), bytes@).0,
            packet_state(*final(self)) == prepended(packet_state(*old(self)), bytes@).1,
    {
        self.prepend(bytes)
    }

    /// Appends bytes to the packet tail.
    fn extend_from_slice(&mut self, bytes: &[u8]) -> (r: Result<(), BufferAccessError>)
        requires
            old(self).wf(),
        ensures
            final(self).wf(),
            final(self).layout_spec() == old(self).layout_spec(),
            r == extended(packet_state(*old(self)), bytes@).0,
            packet_state(*final(self)) == extended(packet_state(*old(self)), bytes@).1,
    ;

    /// Appends bytes, relocating the packet when the implementation supports it.
    fn extend_from_slice_relocating(&mut self, bytes: &[u8]) -> (r: Result<(), BufferAccessError>)
        requires
            old(self).wf(),
        ensures
            final(self).wf(),
            bytes@.len() <= old(self).tailroom_spec() ==> r is Ok,
            r is Ok ==> final(self).bytes() == old(self).bytes() + bytes@,
            r is Err ==> final(self).bytes() == old(self).bytes(),
        default_ensures
            final(self).layout_spec() == old(self).layout_spec(),
            r == extended(packet_state(*old(self)), bytes@).0,
            packet_state(*final(self)) == extended(packet_state(*old(self)), bytes@).1,
    {
        self.extend_from_slice(bytes)
    }

    /// Trims bytes from the packet prefix.
    fn trim_prefix(&mut self, len: usize) -> (r: Result<(), BufferAccessError>)
        requires
            old(self).wf(),
        ensures
            final(self).wf(),
            old(self).is_contiguous() ==> final(self).is_contiguous(),
            final(self).layout_spec() == old(self).layout_spec(),
            r == prefix_trimmed(packet_state(*old(self)), len).0,
            packet_state(*final(self)) == prefix_trimmed(packet_state(*old(self)), len).1,
    ;

    /// Trims bytes from the packet suffix.
    fn trim_suffix(&mut self, len: usize) -> (r: Result<(), BufferAccessError>)
        requires
            old(self).wf(),
        ensures
            final(self).wf(),
            old(self).is_contiguous() ==> final(self).is_contiguous(),
            final(self).layout_spec() == old(self).layout_spec(),
            r == suffix_trimmed(packet_state(*old(self)), len).0,
            packet_state(*final(self)) == suffix_trimmed(packet_state(*old(self)), len).1,
    ;

    /// Freezes the mutable buffer into an immutable packet buffer.
    fn freeze(self) -> (r: Self::Frozen)
        requires
            self.wf(),
        ensures
            r.wf(),
            r.bytes() == self.bytes(),
            r.headroom_spec() == self.headroom_spec(),
            r.tailroom_spec() == self.tailroom_spec(),
            r.layout_spec() == self.layout_spec(),
    ;
}

/// Owned immutable packet buffer that can be converted back into mutable form.
pub trait OwnedPacketBuffer: PacketBuffer + Sized {
    /// Mutable buffer type recovered from this owned immutable buffer.
    type Mutable: PacketBufferMut<Frozen = Self>;

    /// Converts this owned immutable packet back into mutable form.
    fn into_mut(self) -> (r: Self::Mutable)
        requires
            self.wf(),
        ensures
            r.wf(),
            r.bytes() == self.bytes(),
            r.headroom_spec() == self.headroom_spec(),
            r.tailroom_spec() == self.tailroom_spec(),
            r.layout_spec() == self.layout_spec(),
    ;
}

/// Buffer pool.
pub trait BufferPool {
    /// Mutable buffer type allocated by this pool.
    type Buffer: PacketBufferMut;

    /// The pool's bookkeeping is consistent.
    closed spec fn pool_wf(&self) -> bool {
        true
    }

    /// The layout used for newly allocated buffers.
    closed spec fn pool_layout(&self) -> BufferLayout {
        arbitrary()
    }

    /// Returns the layout used for newly allocated buffers.
    fn layout(&self) -> (r: &BufferLayout)
        requires
            self.pool_wf(),
        ensures
            *r == self.pool_layout(),
    ;

    /// Allocates one mutable packet buffer, which starts empty.
    fn allocate(&mut self) -> (r: Option<Self::Buffer>)
        requires
            old(self).pool_wf(),
        ensures
            final(self).pool_wf(),
            final(self).pool_layout() == old(self).pool_layout(),
            r matches Some(buffer) ==> {
                &&& buffer.wf()
                &&& buffer.bytes() == Seq::<u8>::empty()
                &&& buffer.layout_spec() == old(self).pool_layout()
            },
    ;
}

/// Buffer pool suitable for sockets: its buffers, mutable and frozen, can move
/// between worker threads.
pub trait SocketBufferPool: BufferPool where
    Self::Buffer: Send,
    <Self::Buffer as PacketBufferMut>::Frozen: Send,
 {

}

impl<P> SocketBufferPool for P where
    P: BufferPool,
    P::Buffer: Send,
    <P::Buffer as PacketBufferMut>::Frozen: Send,
 {

}

/// A layout has the parts that it was made with, one behind the other: the headroom, the
/// payload and the tailroom fill the chunk, and the payload starts behind the headroom.
pub proof fn law_layouts_have_their_parts(
    payload_capacity: usize,
    headroom: usize,
    tailroom: usize,
    layout: BufferLayout,
)
    requires
        call_ensures(
            BufferLayout::with_headroom_and_tailroom,
            (payload_capacity, headroom, tailroom),
            layout,
        ),
    ensures
        forall|r: usize| #[trigger]
            call_ensures(BufferLayout::payload_capacity, (layout,), r) ==> r == payload_capacity,
        forall|r: usize| #[trigger]
            call_ensures(BufferLayout::headroom, (layout,), r) ==> r == headroom,
        forall|r: usize| #[trigger]
            call_ensures(BufferLayout::tailroom, (layout,), r) ==> r == tailroom,
        forall|r: usize| #[trigger]
            call_ensures(BufferLayout::data_offset, (layout,), r) ==> r == headroom,
        forall|r: usize| #[trigger]
            call_ensures(BufferLayout::chunk_size, (layout,), r) ==> r == headroom
                + payload_capacity + tailroom,
        forall|r: usize| #[trigger]
            call_ensures(BufferLayout::stride, (layout,), r) ==> r == headroom + payload_capacity
                + tailroom,
        forall|r: usize| #[trigger]
            call_ensures(BufferLayout::allocation_len, (layout,), r) ==> r == headroom
                + payload_capacity + tailroom,
        forall|r: usize| #[trigger] call_ensures(BufferLayout::align, (layout,), r) ==> r == 1,
        forall|r: usize| #[trigger]
            call_ensures(BufferLayout::max_segments, (layout,), r) ==> r == 1,
        forall|r: usize| #[trigger]
            call_ensures(BufferLayout::l2_headroom, (layout,), r) ==> r == 0,
        layout@.payload_capacity == payload_capacity,
        layout@.headroom == headroom,
        layout@.tailroom == tailroom,
        layout@.l2_headroom == 0,
        layout@.data_offset == headroom,
        layout@.chunk_size == headroom + payload_capacity + tailroom,
        layout@.stride == layout@.chunk_size,
        layout@.align == 1,
        layout@.max_segments == 1,
        !layout@.chunk_fixed,
{
}

/// A plain layout holds the payload and nothing else. One that is made for a payload holds
/// at least 2048 bytes.
pub proof fn law_plain_layouts_hold_the_payload(payload_capacity: usize, layout: BufferLayout)
    ensures
        call_ensures(BufferLayout::new, (payload_capacity,), layout) ==> {
            &&& layout@.payload_capacity == payload_capacity
            &&& layout@.chunk_size == payload_capacity
            &&& layout@.headroom == 0 && layout@.tailroom == 0 && layout@.data_offset == 0
            &&& layout@.max_segments == 1
        },
        call_ensures(BufferLayout::for_payload, (payload_capacity,), layout) ==> {
            &&& layout@.payload_capacity >= payload_capacity
            &&& layout@.payload_capacity >= 2048
            &&& layout@.payload_capacity == payload_capacity || layout@.payload_capacity == 2048
            &&& layout@.chunk_size == layout@.payload_capacity
            &&& layout@.headroom == 0 && layout@.tailroom == 0 && layout@.data_offset == 0
        },
{
}

/// Link-layer headroom goes in front of the headroom and moves the payload back. The chunk
/// grows with it, unless its size was fixed.
pub proof fn law_link_headroom_goes_in_front(
    layout: BufferLayout,
    l2_headroom: usize,
    r: BufferLayout,
)
    requires
        call_ensures(BufferLayout::with_l2_headroom, (layout, l2_headroom), r),
    ensures
        r@.l2_headroom == l2_headroom,
        r@.data_offset == l2_headroom + layout@.headroom,
        r@.payload_capacity == layout@.payload_capacity,
        r@.headroom == layout@.headroom,
        r@.tailroom == layout@.tailroom,
        r@.align == layout@.align,
        r@.max_segments == layout@.max_segments,
        r@.chunk_fixed == layout@.chunk_fixed,
        layout@.chunk_fixed ==> r@.chunk_size == layout@.chunk_size && r@.stride
            == layout@.stride,
        !layout@.chunk_fixed ==> r@.chunk_size == l2_headroom + layout@.headroom
            + layout@.payload_capacity + layout@.tailroom && r@.stride == r@.chunk_size,
{
}

/// Each of the other layout settings changes what it names and nothing else.
pub proof fn law_layout_settings_change_one_thing(
    layout: BufferLayout,
    n: usize,
    stride: usize,
    r: BufferLayout,
)
    ensures
        call_ensures(BufferLayout::with_alignment, (layout, n), r) ==> r@.align == n
            && r@.chunk_size == layout@.chunk_size && r@.stride == layout@.stride
            && r@.data_offset == layout@.data_offset && r@.max_segments == layout@.max_segments
            && r@.payload_capacity == layout@.payload_capacity && r@.headroom == layout@.headroom
            && r@.tailroom == layout@.tailroom && r@.l2_headroom == layout@.l2_headroom
            && r@.chunk_fixed == layout@.chunk_fixed,
        call_ensures(BufferLayout::with_max_segments, (layout, n), r) ==> r@.max_segments == n
            && r@.chunk_size == layout@.chunk_size && r@.stride == layout@.stride
            && r@.data_offset == layout@.data_offset && r@.align == layout@.align
            && r@.payload_capacity == layout@.payload_capacity && r@.headroom == layout@.headroom
            && r@.tailroom == layout@.tailroom && r@.l2_headroom == layout@.l2_headroom
            && r@.chunk_fixed == layout@.chunk_fixed,
        call_ensures(BufferLayout::with_fixed_chunk, (layout, n, stride), r) ==> r@.chunk_size == n
            && r@.stride == stride && r@.chunk_fixed && r@.data_offset == layout@.data_offset
            && r@.align == layout@.align && r@.max_segments == layout@.max_segments
            && r@.payload_capacity == layout@.payload_capacity && r@.headroom == layout@.headroom
            && r@.tailroom == layout@.tailroom && r@.l2_headroom == layout@.l2_headroom,
{
}

/// A prefix is put in front of a packet where the headroom has room for it, and uses that
/// room up. Otherwise the packet stays as it is, and the error says how much room there is
/// and how much is asked for.
pub proof fn law_prepending_uses_headroom<B: PacketBufferMut>(
    bytes: &[u8],
    r: Result<(), ReserveError>,
)
    ensures
        forall|buffer: &mut B| #[trigger]
            call_ensures(B::prepend, (buffer, bytes), r) ==> {
                &&& r is Ok <==> bytes@.len() <= buffer.headroom_spec()
                &&& r is Ok ==> {
                    &&& final(buffer).bytes() == bytes@ + buffer.bytes()
                    &&& final(buffer).headroom_spec() + bytes@.len() == buffer.headroom_spec()
                    &&& final(buffer).tailroom_spec() == buffer.tailroom_spec()
                }
                &&& r is Err ==> {
                    &&& final(buffer).bytes() == buffer.bytes()
                    &&& final(buffer).headroom_spec() == buffer.headroom_spec()
                    &&& final(buffer).tailroom_spec() == buffer.tailroom_spec()
                }
                &&& r matches Err(error) ==> (error matches ReserveError::InsufficientHeadroom {
                    available,
                    requested,
                } && available == buffer.headroom_spec() as usize && requested == bytes@.len() as usize)
            },
{
    assert forall|buffer: &mut B| #[trigger] call_ensures(B::prepend, (buffer, bytes), r) implies {
        &&& r is Ok <==> bytes@.len() <= buffer.headroom_spec()
        &&& r is Ok ==> {
            &&& final(buffer).bytes() == bytes@ + buffer.bytes()
            &&& final(buffer).headroom_spec() + bytes@.len() == buffer.headroom_spec()
            &&& final(buffer).tailroom_spec() == buffer.tailroom_spec()
        }
        &&& r is Err ==> {
            &&& final(buffer).bytes() == buffer.bytes()
            &&& final(buffer).headroom_spec() == buffer.headroom_spec()
            &&& final(buffer).tailroom_spec() == buffer.tailroom_spec()
        }
        &&& r matches Err(error) ==> (error matches ReserveError::InsufficientHeadroom {
            available,
            requested,
        } && available == buffer.headroom_spec() as usize && requested == bytes@.len() as usize)
    } by {
        let after = packet_state(*final(buffer));
        assert(after == prepended(packet_state(*buffer), bytes@).1);
    }
}

/// A suffix is put behind a packet where the tailroom has room for it, and uses that room
/// up. Otherwise the packet stays as it is, and the error says how much room there is and
/// how much is asked for.
pub proof fn law_extending_uses_tailroom<B: PacketBufferMut>(
    bytes: &[u8],
    r: Result<(), BufferAccessError>,
)
    ensures
        forall|buffer: &mut B| #[trigger]
            call_ensures(B::extend_from_slice, (buffer, bytes), r) ==> {
                &&& r is Ok <==> bytes@.len() <= buffer.tailroom_spec()
                &&& r is Ok ==> {
                    &&& final(buffer).bytes() == buffer.bytes() + bytes@
                    &&& final(buffer).tailroom_spec() + bytes@.len() == buffer.tailroom_spec()
                    &&& final(buffer).headroom_spec() == buffer.headroom_spec()
                }
                &&& r is Err ==> {
                    &&& final(buffer).bytes() == buffer.bytes()
                    &&& final(buffer).headroom_spec() == buffer.headroom_spec()
                    &&& final(buffer).tailroom_spec() == buffer.tailroom_spec()
                }
                &&& r matches Err(error) ==> (error
                    matches BufferAccessError::InsufficientTailroom { available, requested }
                    && available == buffer.tailroom_spec() as usize && requested == bytes@.len() as usize)
            },
{
    assert forall|buffer: &mut B| #[trigger]
        call_ensures(B::extend_from_slice, (buffer, bytes), r) implies {
        &&& r is Ok <==> bytes@.len() <= buffer.tailroom_spec()
        &&& r is Ok ==> {
            &&& final(buffer).bytes() == buffer.bytes() + bytes@
            &&& final(buffer).tailroom_spec() + bytes@.len() == buffer.tailroom_spec()
            &&& final(buffer).headroom_spec() == buffer.headroom_spec()
        }
        &&& r is Err ==> {
            &&& final(buffer).bytes() == buffer.bytes()
            &&& final(buffer).headroom_spec() == buffer.headroom_spec()
            &&& final(buffer).tailroom_spec() == buffer.tailroom_spec()
        }
        &&& r matches Err(error) ==> (error matches BufferAccessError::InsufficientTailroom {
            available,
            requested,
        } && available == buffer.tailroom_spec() as usize && requested == bytes@.len() as usize)
    } by {
        let after = packet_state(*final(buffer));
        assert(after == extended(packet_state(*buffer), bytes@).1);
    }
}

/// Trimming takes bytes off one end of a packet and adds them to the room there. More than
/// there is cannot be trimmed: then the packet stays as it is.
pub proof fn law_trimming_gives_room_back<B: PacketBufferMut>(
    len: usize,
    r: Result<(), BufferAccessError>,
)
    ensures
        forall|buffer: &mut B| #[trigger]
            call_ensures(B::trim_prefix, (buffer, len), r) ==> {
                &&& r is Ok <==> len <= buffer.bytes().len()
                &&& r is Ok ==> {
                    &&& buffer.bytes() == buffer.bytes().take(len as int) + final(buffer).bytes()
                    &&& final(buffer).headroom_spec() == buffer.headroom_spec() + len
                }
                &&& r is Err ==> {
                    &&& final(buffer).bytes() == buffer.bytes()
                    &&& final(buffer).headroom_spec() == buffer.headroom_spec()
                }
                &&& final(buffer).tailroom_spec() == buffer.tailroom_spec()
                &&& r matches Err(error) ==> (error matches BufferAccessError::OutOfBounds {
                    offset,
                    len: asked,
                    packet_len,
                } && offset == 0 && asked == len && packet_len == buffer.bytes().len() as usize)
            },
        forall|buffer: &mut B| #[trigger]
            call_ensures(B::trim_suffix, (buffer, len), r) ==> {
                &&& r is Ok <==> len <= buffer.bytes().len()
                &&& r is Ok ==> {
                    &&& buffer.bytes() == final(buffer).bytes() + buffer.bytes().skip(
                        buffer.bytes().len() - len,
                    )
                    &&& final(buffer).tailroom_spec() == buffer.tailroom_spec() + len
                }
                &&& r is Err ==> {
                    &&& final(buffer).bytes() == buffer.bytes()
                    &&& final(buffer).tailroom_spec() == buffer.tailroom_spec()
                }
                &&& final(buffer).headroom_spec() == buffer.headroom_spec()
                &&& r matches Err(error) ==> (error matches BufferAccessError::OutOfBounds {
                    offset,
                    len: asked,
                    packet_len,
                } && offset == 0 && asked == len && packet_len == buffer.bytes().len() as usize)
            },
{
    assert forall|buffer: &mut B| #[trigger] call_ensures(B::trim_prefix, (buffer, len), r) implies {
        &&& r is Ok <==> len <= buffer.bytes().len()
        &&& r is Ok ==> {
            &&& buffer.bytes() == buffer.bytes().take(len as int) + final(buffer).bytes()
            &&& final(buffer).headroom_spec() == buffer.headroom_spec() + len
        }
        &&& r is Err ==> {
            &&& final(buffer).bytes() == buffer.bytes()
            &&& final(buffer).headroom_spec() == buffer.headroom_spec()
        }
        &&& final(buffer).tailroom_spec() == buffer.tailroom_spec()
        &&& r matches Err(error) ==> (error matches BufferAccessError::OutOfBounds {
            offset,
            len: asked,
            packet_len,
        } && offset == 0 && asked == len && packet_len == buffer.bytes().len() as usize)
    } by {
        let after = packet_state(*final(buffer));
        assert(after == prefix_trimmed(packet_state(*buffer), len).1);
    }
    assert forall|buffer: &mut B| #[trigger] call_ensures(B::trim_suffix, (buffer, len), r) implies {
        &&& r is Ok <==> len <= buffer.bytes().len()
        &&& r is Ok ==> {
            &&& buffer.bytes() == final(buffer).bytes() + buffer.bytes().skip(
                buffer.bytes().len() - len,
            )
            &&& final(buffer).tailroom_spec() == buffer.tailroom_spec() + len
        }
        &&& r is Err ==> {
            &&& final(buffer).bytes() == buffer.bytes()
            &&& final(buffer).tailroom_spec() == buffer.tailroom_spec()
        }
        &&& final(buffer).headroom_spec() == buffer.headroom_spec()
        &&& r matches Err(error) ==> (error matches BufferAccessError::OutOfBounds {
            offset,
            len: asked,
            packet_len,
        } && offset == 0 && asked == len && packet_len == buffer.bytes().len() as usize)
    } by {
        let after = packet_state(*final(buffer));
        assert(after == suffix_trimmed(packet_state(*buffer), len).1);
    }
}

/// A read gives the bytes from its offset on where all of them are in the packet, and
/// otherwise nothing: then the error says what was asked for and how long the packet is.
pub proof fn law_reads_give_the_bytes_at_their_offset<B: PacketBuffer>(
    buffer: &B,
    packet: &[u8],
    offset: usize,
    r: Result<(), BufferAccessError>,
)
    ensures
        forall|dst: &mut [u8]| #[trigger]
            call_ensures(B::read_at_exact, (buffer, offset, dst), r) ==> {
                &&& r is Ok <==> offset + dst@.len() <= buffer.bytes().len()
                &&& r is Ok ==> final(dst)@.len() == dst@.len() && forall|i: int|
                    0 <= i < dst@.len() ==> #[trigger] final(dst)@[i] == buffer.bytes()[offset + i]
                &&& r is Err ==> final(dst)@ == dst@
                &&& r matches Err(error) ==> (error matches BufferAccessError::OutOfBounds {
                    offset: at,
                    len,
                    packet_len,
                } && at == offset && len == dst@.len() as usize && packet_len
                    == buffer.bytes().len() as usize)
            },
        forall|dst: &mut [u8]| #[trigger]
            call_ensures(read_contiguous, (packet, offset, dst), r) ==> {
                &&& r is Ok <==> offset + dst@.len() <= packet@.len()
                &&& r is Ok ==> final(dst)@.len() == dst@.len() && forall|i: int|
                    0 <= i < dst@.len() ==> #[trigger] final(dst)@[i] == packet@[offset + i]
                &&& r is Err ==> final(dst)@ == dst@
                &&& r matches Err(error) ==> (error matches BufferAccessError::OutOfBounds {
                    offset: at,
                    len,
                    packet_len,
                } && at == offset && len == dst@.len() as usize && packet_len
                    == packet@.len() as usize)
            },
{
}

/// Segments are joined in order.
pub proof fn law_segments_are_joined_in_order(segments: Seq<&[u8]>, segment: &[u8])
    ensures
        joined_segments(segments.push(segment)) == joined_segments(segments) + segment@,
        joined_segments(Seq::<&[u8]>::empty()).len() == 0,
{
    assert(segments.push(segment).drop_last() =~= segments);
}

/// What the errors of a buffer say.
pub proof fn law_buffer_errors_say_what_is_missing(
    access: &BufferAccessError,
    reserve: &ReserveError,
    r: String,
)
    ensures
        call_ensures(BufferAccessError::message, (access,), r) ==> {
            &&& *access matches BufferAccessError::OutOfBounds { offset, len, packet_len } ==> r@
                == "buffer access out of bounds: offset "@ + decimal_text(offset as nat)
                + ", length "@ + decimal_text(len as nat) + ", packet length "@ + decimal_text(
                packet_len as nat,
            )
            &&& *access matches BufferAccessError::InsufficientTailroom { available, requested }
                ==> r@ == "insufficient tailroom: requested "@ + decimal_text(requested as nat)
                + ", available "@ + decimal_text(available as nat)
        },
        call_ensures(ReserveError::message, (reserve,), r) ==> {
            &&& *reserve matches ReserveError::InsufficientHeadroom { available, requested } ==> r@
                == "insufficient headroom: requested "@ + decimal_text(requested as nat)
                + ", available "@ + decimal_text(available as nat)
            &&& *reserve matches ReserveError::InsufficientTailroom { available, requested } ==> r@
                == "insufficient tailroom: requested "@ + decimal_text(requested as nat)
                + ", available "@ + decimal_text(available as nat)
            &&& *reserve is SegmentBoundary ==> r@ == "write would cross a segment boundary"@
            &&& *reserve is LayoutUnsupported ==> r@ == "buffer layout does not support this write"@
        },
{
}

} // verus!
