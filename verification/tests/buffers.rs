//! Packet buffers.

use fast_socket_rs::{
    BufferAccessError, BufferLayout, BufferPool, HeapBufferPool, OwnedPacketBuffer, PacketBuf,
    PacketBufMut, PacketBuffer, PacketBufferMut, ReserveError,
};

fn packet_buf_mut_from_slice(bytes: &[u8]) -> PacketBufMut {
    let mut buffer = PacketBufMut::new(BufferLayout::new(bytes.len()));
    buffer
        .extend_from_slice(bytes)
        .expect("fresh compact buffer has enough tailroom");
    buffer
}

#[test]
fn mutable_buffer_freezes_without_copying_semantics() {
    let layout = BufferLayout::with_headroom_and_tailroom(16, 4, 4);
    let mut buffer = PacketBufMut::new(layout);

    assert_eq!(buffer.headroom(), 4);
    assert_eq!(buffer.tailroom(), 20);

    buffer.extend_from_slice(b"hello").unwrap();
    assert_eq!(buffer.len(), 5);
    assert_eq!(buffer.as_slice(), b"hello");

    let frozen = buffer.freeze();
    assert_eq!(frozen.as_slice(), b"hello");
    assert_eq!(frozen.segments(), vec![&b"hello"[..]]);
}

#[test]
fn packet_buffer_exposes_borrowed_segments_and_contiguous_view() {
    let buffer = PacketBuf::copy_from_slice(b"hello");

    assert_eq!(buffer.first_segment(), Some(&b"hello"[..]));
    assert_eq!(buffer.contiguous(), Some(&b"hello"[..]));
}

#[test]
fn packet_buffer_mut_exposes_mutable_segments_and_contiguous_view() {
    let mut buffer = packet_buf_mut_from_slice(b"hello");

    buffer.first_segment_mut().unwrap()[0] = b'j';
    assert_eq!(buffer.as_slice(), b"jello");

    buffer.contiguous_mut().unwrap()[1] = b'a';
    assert_eq!(buffer.as_slice(), b"jallo");
}

struct SplitPacket {
    layout: BufferLayout,
    first: [u8; 3],
    second: [u8; 3],
}

impl SplitPacket {
    fn new() -> Self {
        Self {
            layout: BufferLayout::new(6).with_max_segments(2),
            first: *b"hel",
            second: *b"lo!",
        }
    }
}

impl PacketBuffer for SplitPacket {
    fn len(&self) -> usize {
        6
    }

    fn headroom(&self) -> usize {
        0
    }

    fn tailroom(&self) -> usize {
        0
    }

    fn layout(&self) -> &BufferLayout {
        &self.layout
    }

    fn segments(&self) -> Vec<&[u8]> {
        vec![&self.first[..], &self.second[..]]
    }

    fn read_at_exact(&self, offset: usize, dst: &mut [u8]) -> Result<(), BufferAccessError> {
        if offset
            .checked_add(dst.len())
            .map_or(true, |end| end > self.len())
        {
            return Err(BufferAccessError::OutOfBounds {
                offset,
                len: dst.len(),
                packet_len: self.len(),
            });
        }
        let mut packet = [0; 6];
        packet[..3].copy_from_slice(&self.first);
        packet[3..].copy_from_slice(&self.second);
        dst.copy_from_slice(&packet[offset..offset + dst.len()]);
        Ok(())
    }
}

impl PacketBufferMut for SplitPacket {
    type Frozen = Self;

    fn first_segment_mut(&mut self) -> Option<&mut [u8]> {
        Some(&mut self.first[..])
    }

    fn contiguous_mut(&mut self) -> Option<&mut [u8]> {
        None
    }

    fn prepend(&mut self, bytes: &[u8]) -> Result<(), ReserveError> {
        Err(ReserveError::InsufficientHeadroom {
            available: 0,
            requested: bytes.len(),
        })
    }

    fn extend_from_slice(&mut self, bytes: &[u8]) -> Result<(), BufferAccessError> {
        Err(BufferAccessError::InsufficientTailroom {
            available: 0,
            requested: bytes.len(),
        })
    }

    fn trim_prefix(&mut self, len: usize) -> Result<(), BufferAccessError> {
        Err(BufferAccessError::OutOfBounds {
            offset: 0,
            len,
            packet_len: self.len(),
        })
    }

    fn trim_suffix(&mut self, len: usize) -> Result<(), BufferAccessError> {
        Err(BufferAccessError::OutOfBounds {
            offset: self.len().saturating_sub(len),
            len,
            packet_len: self.len(),
        })
    }

    fn freeze(self) -> Self::Frozen {
        self
    }
}

#[test]
fn split_packet_has_first_segment_but_no_contiguous_view() {
    let mut packet = SplitPacket::new();

    assert_eq!(packet.first_segment(), Some(&b"hel"[..]));
    assert_eq!(packet.contiguous(), None);

    {
        let first = packet.first_segment_mut().unwrap();
        assert_eq!(first, b"hel");
        first[0] = b'j';
    }

    assert_eq!(packet.first_segment(), Some(&b"jel"[..]));
    assert_eq!(packet.contiguous_mut(), None);
}

#[test]
fn read_at_exact_rejects_short_reads() {
    let buffer = PacketBuf::copy_from_slice(b"abcdef");
    let mut bytes = [0; 3];

    buffer.read_at_exact(2, &mut bytes).unwrap();
    assert_eq!(&bytes, b"cde");

    assert!(matches!(
        buffer.read_at_exact(5, &mut bytes),
        Err(BufferAccessError::OutOfBounds { .. })
    ));
}

#[test]
fn prepend_writes_bytes_before_packet() {
    let layout = BufferLayout::with_headroom_and_tailroom(16, 8, 0);
    let mut buffer = PacketBufMut::new(layout);
    buffer.extend_from_slice(b"payload").unwrap();

    buffer.prepend(b"v4IP").unwrap();

    assert_eq!(buffer.as_slice(), b"v4IPpayload");
    assert_eq!(buffer.headroom(), 4);
}

#[test]
fn prepend_rejects_writes_exceeding_headroom() {
    let layout = BufferLayout::with_headroom_and_tailroom(16, 4, 0).with_l2_headroom(8);
    let mut buffer = PacketBufMut::new(layout);

    assert_eq!(buffer.headroom(), 4);
    assert!(matches!(
        buffer.prepend(&[0u8; 5]),
        Err(ReserveError::InsufficientHeadroom {
            available: 4,
            requested: 5,
        })
    ));
}

#[test]
fn relocating_prepend_and_extend_preserve_payload() {
    let mut prefix_buffer = packet_buf_mut_from_slice(b"payload");
    prefix_buffer.prepend_relocating(b"head").unwrap();
    assert_eq!(prefix_buffer.as_slice(), b"headpayload");

    let mut tail_buffer = packet_buf_mut_from_slice(b"payload");
    tail_buffer.extend_from_slice_relocating(b"tail").unwrap();
    assert_eq!(tail_buffer.as_slice(), b"payloadtail");
}

#[test]
fn heap_buffer_pool_allocates_contiguous_buffers() {
    let mut pool = HeapBufferPool::with_payload_capacity(16);
    assert_eq!(pool.layout().payload_capacity(), 16);

    let mut buffer = pool.allocate().unwrap();
    buffer.extend_from_slice(b"hello").unwrap();
    assert_eq!(buffer.as_slice(), b"hello");
}

const IPV4_HEADER_LEN: usize = 20;
const IPV6_HEADER_LEN: usize = 40;

fn ipv4_packet(payload: &[u8], ttl: u8) -> Vec<u8> {
    let total_len = IPV4_HEADER_LEN + payload.len();
    let mut packet = vec![0u8; total_len];
    packet[0] = 0x45;
    packet[2..4].copy_from_slice(&(total_len as u16).to_be_bytes());
    packet[8] = ttl;
    packet[9] = 17;
    packet[12..16].copy_from_slice(&[192, 0, 2, 1]);
    packet[16..20].copy_from_slice(&[198, 51, 100, 1]);
    packet[IPV4_HEADER_LEN..].copy_from_slice(payload);
    let checksum = ipv4_checksum(&packet[..IPV4_HEADER_LEN]);
    packet[10..12].copy_from_slice(&checksum.to_be_bytes());
    packet
}

fn ipv4_checksum(header: &[u8]) -> u16 {
    let mut sum = 0u32;
    for chunk in header.chunks_exact(2) {
        sum += u32::from(u16::from_be_bytes([chunk[0], chunk[1]]));
    }
    while (sum >> 16) != 0 {
        sum = (sum & 0xffff) + (sum >> 16);
    }
    !(sum as u16)
}

fn decrement_ipv4_ttl(packet: &mut PacketBufMut) {
    let bytes = packet.as_mut_slice();
    let header_len = usize::from(bytes[0] & 0x0f) * 4;
    assert!(bytes[8] > 1, "test packet must be forwardable");
    bytes[8] -= 1;
    bytes[10..12].copy_from_slice(&0u16.to_be_bytes());
    let checksum = ipv4_checksum(&bytes[..header_len]);
    bytes[10..12].copy_from_slice(&checksum.to_be_bytes());
}

fn write_ipv6_header(header: &mut [u8; IPV6_HEADER_LEN], payload_len: usize) {
    header[0] = 0x60;
    header[4..6].copy_from_slice(&(payload_len as u16).to_be_bytes());
    header[6] = 17;
    header[7] = 63;
    header[8..24].copy_from_slice(&[0x20, 0x01, 0x0d, 0xb8, 0, 0, 0, 0, 0, 0, 0, 0, 0, 0, 0, 1]);
    header[24..40].copy_from_slice(&[0x20, 0x01, 0x0d, 0xb8, 0, 0, 0, 0, 0, 0, 0, 0, 0, 0, 0, 2]);
}

#[test]
fn ip_packet_forwarding_updates_ttl_in_place_and_preserves_payload() {
    let payload = b"forwarded payload";
    let mut packet = PacketBufMut::copy_from_slice(&ipv4_packet(payload, 64));
    let before_len = packet.len();

    decrement_ipv4_ttl(&mut packet);

    assert_eq!(packet.len(), before_len);
    assert_eq!(packet.as_slice()[8], 63);
    assert_eq!(&packet.as_slice()[IPV4_HEADER_LEN..], payload);
    assert_eq!(ipv4_checksum(&packet.as_slice()[..IPV4_HEADER_LEN]), 0);
}

#[test]
fn ipv4_to_ipv6_translation_uses_prepend_and_preserves_payload() {
    let payload = b"translated payload";
    let mut packet = PacketBufMut::new(BufferLayout::with_headroom_and_tailroom(
        payload.len(),
        IPV6_HEADER_LEN,
        0,
    ));
    packet.extend_from_slice(payload).unwrap();

    let mut header = [0u8; IPV6_HEADER_LEN];
    write_ipv6_header(&mut header, payload.len());
    let starting_headroom = packet.headroom();
    packet.prepend(&header).unwrap();

    assert_eq!(starting_headroom, IPV6_HEADER_LEN);
    assert_eq!(packet.headroom(), 0);
    assert_eq!(packet.len(), IPV6_HEADER_LEN + payload.len());
    assert_eq!(&packet.as_slice()[..IPV6_HEADER_LEN], &header);
    assert_eq!(&packet.as_slice()[IPV6_HEADER_LEN..], payload);
}

#[test]
fn extend_appends_translation_suffix_and_trim_returns_tailroom() {
    let payload = b"inner datagram";
    let suffix = [0xde, 0xad, 0xbe, 0xef];
    let mut packet = PacketBufMut::new(BufferLayout::with_headroom_and_tailroom(
        payload.len(),
        0,
        suffix.len(),
    ));
    packet.extend_from_slice(payload).unwrap();
    packet.extend_from_slice(&suffix).unwrap();

    assert_eq!(packet.as_slice(), b"inner datagram\xde\xad\xbe\xef");
    packet.trim_suffix(suffix.len()).unwrap();
    assert_eq!(packet.as_slice(), payload);
    assert_eq!(packet.tailroom(), suffix.len());
}

#[test]
fn headroom_and_tailroom_exhaustion_are_explicit_fast_path_errors() {
    let mut packet = PacketBufMut::new(BufferLayout::with_headroom_and_tailroom(16, 4, 2));
    packet.extend_from_slice(b"0123456789abcdef").unwrap();

    assert_eq!(
        packet.prepend(&[0u8; 5]).unwrap_err(),
        ReserveError::InsufficientHeadroom {
            available: 4,
            requested: 5,
        }
    );
}

#[test]
fn edits_that_undo_each_other_restore_the_packet() {
    let mut packet = PacketBufMut::new(BufferLayout::with_headroom_and_tailroom(8, 4, 4));
    packet.extend_from_slice(b"body").unwrap();
    packet.prepend(b"hd").unwrap();
    packet.trim_prefix(2).unwrap();
    assert_eq!(packet.as_slice(), b"body");
    assert_eq!(packet.headroom(), 4);
    packet.extend_from_slice(b"tl").unwrap();
    packet.trim_suffix(2).unwrap();
    assert_eq!(packet.as_slice(), b"body");
    assert_eq!(packet.headroom() + packet.len() + packet.tailroom(), 16);
}

#[test]
fn reads_give_back_what_was_written() {
    let mut packet = PacketBufMut::new(BufferLayout::with_headroom_and_tailroom(8, 4, 4));
    packet.extend_from_slice(b"body").unwrap();
    let end = packet.len();
    packet.extend_from_slice(b"tl").unwrap();
    let mut two = [0; 2];
    packet.read_at_exact(end, &mut two).unwrap();
    assert_eq!(&two, b"tl");
    packet.prepend(b"hd").unwrap();
    packet.read_at_exact(0, &mut two).unwrap();
    assert_eq!(&two, b"hd");
}

#[test]
fn trims_beyond_the_packet_change_nothing() {
    let mut packet = packet_buf_mut_from_slice(b"abc");
    assert_eq!(
        packet.trim_prefix(4),
        Err(BufferAccessError::OutOfBounds {
            offset: 0,
            len: 4,
            packet_len: 3,
        })
    );
    assert!(packet.trim_suffix(4).is_err());
    assert_eq!(packet.as_slice(), b"abc");
    assert_eq!(
        packet.extend_from_slice(b"x"),
        Err(BufferAccessError::InsufficientTailroom {
            available: 0,
            requested: 1,
        })
    );
}

#[test]
fn freezing_and_thawing_keep_the_bytes() {
    let frozen = packet_buf_mut_from_slice(b"abc").freeze();
    let thawed = frozen.into_mut();
    assert_eq!(thawed.as_slice(), b"abc");
    assert!(!thawed.is_empty());
    assert!(PacketBufMut::new(BufferLayout::new(4)).is_empty());
}

#[test]
fn access_errors_describe_themselves() {
    assert_eq!(
        ReserveError::InsufficientHeadroom {
            available: 4,
            requested: 5,
        }
        .message(),
        "insufficient headroom: requested 5, available 4"
    );
    assert_eq!(
        ReserveError::InsufficientTailroom {
            available: 0,
            requested: 12,
        }
        .message(),
        "insufficient tailroom: requested 12, available 0"
    );
    assert_eq!(
        ReserveError::SegmentBoundary.message(),
        "write would cross a segment boundary"
    );
    assert_eq!(
        ReserveError::LayoutUnsupported.message(),
        "buffer layout does not support this write"
    );
    assert_eq!(
        BufferAccessError::OutOfBounds {
            offset: 5,
            len: 3,
            packet_len: 6,
        }
        .message(),
        "buffer access out of bounds: offset 5, length 3, packet length 6"
    );
    assert_eq!(
        BufferAccessError::InsufficientTailroom {
            available: 1,
            requested: 2,
        }
        .message(),
        "insufficient tailroom: requested 2, available 1"
    );
}
