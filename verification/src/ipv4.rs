//! IPv4/UDP packets: parsing, header checksums and reflection.

use vstd::prelude::*;

use crate::bytes::{be16, be32, read_be16};
use crate::net::Ipv4Addr;
use crate::xdp_filter::ipv4_header_len;

verus! {

/// Parsed IPv4/UDP header fields.
#[derive(Clone, Copy, Debug, Eq, PartialEq, Structural)]
pub struct Ipv4UdpPacket {
    /// Source IPv4 address.
    pub source: Ipv4Addr,
    /// Destination IPv4 address.
    pub destination: Ipv4Addr,
    /// Source UDP port.
    pub source_port: u16,
    /// Destination UDP port.
    pub destination_port: u16,
    /// UDP payload byte offset inside the IP packet.
    pub payload_offset: usize,
    /// IPv4 total length.
    pub total_len: usize,
}

/// The bytes hold a whole, unfragmented IPv4/UDP datagram.
pub open spec fn is_ipv4_udp(packet: Seq<u8>) -> bool {
    let header = ipv4_header_len(packet[0]);
    let total = be16(packet[2], packet[3]);
    let udp = be16(packet[header + 4], packet[header + 5]);
    &&& packet.len() >= 28
    &&& packet[0] as int / 16 == 4
    &&& header >= 20
    &&& header + 8 <= total <= packet.len()
    &&& packet[9] == 17
    &&& be16(packet[6], packet[7]) % 0x4000 == 0
    &&& 8 <= udp
    &&& header + udp <= total
}

/// The address in the four bytes at `at`.
pub open spec fn address_at(packet: Seq<u8>, at: int) -> Ipv4Addr {
    Ipv4Addr {
        bits: be32(packet[at], packet[at + 1], packet[at + 2], packet[at + 3]) as u32,
    }
}

/// The header fields of an IPv4/UDP datagram.
pub open spec fn header_fields(packet: Seq<u8>) -> Ipv4UdpPacket {
    let header = ipv4_header_len(packet[0]);
    Ipv4UdpPacket {
        source: address_at(packet, 12),
        destination: address_at(packet, 16),
        source_port: be16(packet[header], packet[header + 1]) as u16,
        destination_port: be16(packet[header + 2], packet[header + 3]) as u16,
        payload_offset: (header + 8) as usize,
        total_len: be16(packet[2], packet[3]) as usize,
    }
}

/// Parses an IPv4 UDP datagram.
#[must_use]
pub fn parse_ipv4_udp(packet: &[u8]) -> (r: Option<Ipv4UdpPacket>)
    ensures
        r == (if is_ipv4_udp(packet@) {
            Some(header_fields(packet@))
        } else {
            None
        }),
{
    if packet.len() < 28 || packet[0] / 16 != 4 {
        return None;
    }
    let header: usize = (packet[0] % 16) as usize * 4;
    if header < 20 || packet.len() < header + 8 {
        return None;
    }
    let total_len: usize = read_be16(packet, 2) as usize;
    if total_len < header + 8 || total_len > packet.len() || packet[9] != 17 {
        return None;
    }
    if read_be16(packet, 6) % 0x4000 != 0 {
        return None;
    }
    let udp_len: usize = read_be16(packet, header + 4) as usize;
    if udp_len < 8 || header + udp_len > total_len {
        return None;
    }
    Some(
        Ipv4UdpPacket {
            source: Ipv4Addr::new(packet[12], packet[13], packet[14], packet[15]),
            destination: Ipv4Addr::new(packet[16], packet[17], packet[18], packet[19]),
            source_port: read_be16(packet, header),
            destination_port: read_be16(packet, header + 2),
            payload_offset: header + 8,
            total_len,
        },
    )
}

/// The sum of the first `words` big-endian 16-bit words.
pub open spec fn word_sum(bytes: Seq<u8>, words: nat) -> nat
    decreases words,
{
    if words == 0 {
        0
    } else {
        word_sum(bytes, (words - 1) as nat) + be16(
            bytes[2 * words - 2],
            bytes[2 * words - 1],
        ) as nat
    }
}

/// The ones' complement sum of 16 bits that `sum` folds to.
pub open spec fn folded(sum: nat) -> nat {
    if sum == 0 {
        0
    } else {
        ((sum - 1) % 0xffff + 1) as nat
    }
}

/// The Internet checksum of whole 16-bit words.
pub open spec fn checksum_of(header: Seq<u8>) -> nat {
    (0xffff - folded(word_sum(header, header.len() / 2))) as nat
}

proof fn lemma_word_sum_bounded(bytes: Seq<u8>, words: nat)
    ensures
        word_sum(bytes, words) <= 0xffff * words,
    decreases words,
{
    if words > 0 {
        lemma_word_sum_bounded(bytes, (words - 1) as nat);
    }
}

proof fn lemma_fold_step(sum: nat)
    requires
        sum >= 0x1_0000,
    ensures
        folded(sum) == folded(sum % 0x1_0000 + sum / 0x1_0000),
        0 < sum % 0x1_0000 + sum / 0x1_0000 < sum,
{
    let high = sum / 0x1_0000;
    let low = sum % 0x1_0000;
    let next = low + high;
    assert(sum - 1 == (next - 1) + high * 0xffff);
    assert((sum - 1) % 0xffff == (next - 1) % 0xffff) by {
        vstd::arithmetic::div_mod::lemma_mod_multiples_vanish(
            high as int,
            (next - 1) as int,
            0xffff,
        );
        assert(0xffff * high + (next - 1) == sum - 1);
    }
}

/// Returns the Internet checksum of a header; an odd last byte is left out.
#[must_use]
pub fn ipv4_header_checksum(header: &[u8]) -> (r: u16)
    requires
        header@.len() <= 0x2_0000,
    ensures
        r == checksum_of(header@),
{
    let words: usize = header.len() / 2;
    let mut sum: u32 = 0;
    let mut word: usize = 0;
    while word < words
        invariant
            word <= words,
            words == header@.len() / 2,
            words <= 0x1_0000,
            sum == word_sum(header@, word as nat),
            sum <= 0xffff * word,
        decreases words - word,
    {
        let value: u16 = read_be16(header, 2 * word);
        assert(0xffff * word <= 0xffff * 0xffff);
        sum = sum + value as u32;
        word = word + 1;
        assert(word_sum(header@, word as nat) == word_sum(header@, (word - 1) as nat) + be16(
            header@[2 * word - 2],
            header@[2 * word - 1],
        ));
    }
    while sum / 0x1_0000 != 0
        invariant
            folded(sum as nat) == folded(word_sum(header@, header@.len() / 2)),
        decreases sum,
    {
        proof {
            lemma_fold_step(sum as nat);
        }
        sum = sum % 0x1_0000 + sum / 0x1_0000;
    }
    assert(folded(sum as nat) == sum);
    0xffff - sum as u16
}

/// The datagram with its endpoints swapped and both checksums cleared.
pub open spec fn endpoints_swapped(packet: Seq<u8>) -> Seq<u8> {
    let udp = ipv4_header_len(packet[0]);
    Seq::new(
        packet.len(),
        |i: int|
            if 12 <= i < 16 {
                packet[i + 4]
            } else if 16 <= i < 20 {
                packet[i - 4]
            } else if udp <= i < udp + 2 {
                packet[i + 2]
            } else if udp + 2 <= i < udp + 4 {
                packet[i - 2]
            } else if i == 10 || i == 11 || i == udp + 6 || i == udp + 7 {
                0
            } else {
                packet[i]
            },
    )
}

/// `packet` with the checksum of its first `header` bytes in the checksum field.
pub open spec fn with_checksum(packet: Seq<u8>, header: int) -> Seq<u8> {
    let checksum = checksum_of(packet.take(header)) as int;
    packet.update(10, (checksum / 256) as u8).update(11, (checksum % 256) as u8)
}

/// The datagram that answers `packet`: its endpoints swapped, no UDP checksum,
/// and a fresh header checksum.
pub open spec fn reflected(packet: Seq<u8>) -> Seq<u8> {
    with_checksum(endpoints_swapped(packet), ipv4_header_len(packet[0]))
}

/// Swaps IPv4 and UDP endpoints in-place and returns the new destination IP.
/// Anything but a whole IPv4/UDP datagram is left as it is.
pub fn reflect_ipv4_udp(packet: &mut [u8]) -> (r: Option<Ipv4Addr>)
    ensures
        if is_ipv4_udp(old(packet)@) {
            &&& r == Some(header_fields(old(packet)@).source)
            &&& final(packet)@ == reflected(old(packet)@)
        } else {
            &&& r is None
            &&& final(packet)@ == old(packet)@
        },
{
    let parsed = match parse_ipv4_udp(packet) {
        Some(parsed) => parsed,
        None => {
            return None;
        },
    };
    let ghost before = packet@;
    let udp: usize = parsed.payload_offset - 8;
    let mut at: usize = 12;
    while at < 16
        invariant
            12 <= at <= 16,
            packet@.len() == before.len(),
            before.len() >= 28,
            forall|i: int|
                0 <= i < before.len() ==> packet@[i] == (if 12 <= i < at {
                    before[i + 4]
                } else if 16 <= i < at + 4 {
                    before[i - 4]
                } else {
                    before[i]
                }),
        decreases 16 - at,
    {
        let source: u8 = packet[at];
        let destination: u8 = packet[at + 4];
        packet[at] = destination;
        packet[at + 4] = source;
        at = at + 1;
    }
    let source_high: u8 = packet[udp];
    let source_low: u8 = packet[udp + 1];
    let destination_high: u8 = packet[udp + 2];
    let destination_low: u8 = packet[udp + 3];
    packet[udp] = destination_high;
    packet[udp + 1] = destination_low;
    packet[udp + 2] = source_high;
    packet[udp + 3] = source_low;
    packet[udp + 6] = 0;
    packet[udp + 7] = 0;
    packet[10] = 0;
    packet[11] = 0;
    assert(packet@ =~= endpoints_swapped(before));
    let mut header: Vec<u8> = Vec::with_capacity(udp);
    let mut copied: usize = 0;
    while copied < udp
        invariant
            copied <= udp,
            udp <= packet@.len(),
            header@ == packet@.take(copied as int),
        decreases udp - copied,
    {
        header.push(packet[copied]);
        copied = copied + 1;
        assert(packet@.take(copied as int) =~= packet@.take(copied - 1).push(
            packet@[copied - 1],
        ));
    }
    let checksum: u16 = ipv4_header_checksum(header.as_slice());
    packet[10] = (checksum / 256) as u8;
    packet[11] = (checksum % 256) as u8;
    Some(parsed.source)
}

proof fn lemma_word_sum_same(a: Seq<u8>, b: Seq<u8>, words: nat)
    requires
        forall|i: int| 0 <= i < 2 * words ==> a[i] == b[i],
    ensures
        word_sum(a, words) == word_sum(b, words),
    decreases words,
{
    if words > 0 {
        lemma_word_sum_same(a, b, (words - 1) as nat);
    }
}

proof fn lemma_word_sum_tail(a: Seq<u8>, b: Seq<u8>, words: nat, extra: int)
    requires
        words >= 10,
        word_sum(a, 10) == word_sum(b, 10) + extra,
        forall|i: int| 20 <= i < 2 * words ==> a[i] == b[i],
    ensures
        word_sum(a, words) == word_sum(b, words) + extra,
    decreases words,
{
    if words > 10 {
        lemma_word_sum_tail(a, b, (words - 1) as nat, extra);
    }
}

proof fn lemma_word_sum_ten(a: Seq<u8>)
    ensures
        word_sum(a, 10) == be16(a[0], a[1]) + be16(a[2], a[3]) + be16(a[4], a[5]) + be16(
            a[6],
            a[7],
        ) + be16(a[8], a[9]) + be16(a[10], a[11]) + be16(a[12], a[13]) + be16(a[14], a[15]) + be16(
            a[16],
            a[17],
        ) + be16(a[18], a[19]),
{
    reveal_with_fuel(word_sum, 11);
}

/// A header whose checksum field was filled in verifies: the ones' complement
/// sum of all its words has all bits set.
pub proof fn law_checksum_verifies(header: Seq<u8>)
    requires
        20 <= header.len(),
        header.len() % 2 == 0,
        header[10] == 0,
        header[11] == 0,
    ensures
        folded(
            word_sum(with_checksum(header, header.len() as int), header.len() / 2),
        ) == 0xffff,
{
    let words = header.len() / 2;
    let filled = with_checksum(header, header.len() as int);
    let checksum = checksum_of(header) as int;
    let sum = word_sum(header, words);
    assert(header.take(header.len() as int) =~= header);
    assert(be16(filled[10], filled[11]) == checksum);
    lemma_word_sum_ten(header);
    lemma_word_sum_ten(filled);
    lemma_word_sum_tail(filled, header, words, checksum);
    assert(word_sum(filled, words) == sum + checksum);
    if sum > 0 {
        let multiple = (sum - 1) / 0xffff;
        assert(sum + checksum - 1 == 0xffff * multiple + 0xfffe) by {
            assert(sum - 1 == 0xffff * multiple + (sum - 1) % 0xffff);
        }
        vstd::arithmetic::div_mod::lemma_mod_multiples_vanish(multiple, 0xfffe, 0xffff);
    }
}

/// The reflection of a datagram is a datagram from its destination back to its
/// source, with the same payload and a header checksum that verifies.
pub proof fn law_reflection_swaps_endpoints(packet: Seq<u8>)
    requires
        is_ipv4_udp(packet),
    ensures
        is_ipv4_udp(reflected(packet)),
        header_fields(reflected(packet)) == (Ipv4UdpPacket {
            source: header_fields(packet).destination,
            destination: header_fields(packet).source,
            source_port: header_fields(packet).destination_port,
            destination_port: header_fields(packet).source_port,
            ..header_fields(packet)
        }),
        reflected(packet).len() == packet.len(),
        reflected(packet).skip(header_fields(packet).payload_offset as int) == packet.skip(
            header_fields(packet).payload_offset as int,
        ),
        folded(
            word_sum(reflected(packet), ipv4_header_len(packet[0]) as nat / 2),
        ) == 0xffff,
{
    let header = ipv4_header_len(packet[0]);
    let swapped = endpoints_swapped(packet);
    let result = reflected(packet);
    assert(result[0] == packet[0]);
    assert(result.skip(header + 8) =~= packet.skip(header + 8));
    let taken = swapped.take(header);
    law_checksum_verifies(taken);
    assert(taken.take(taken.len() as int) =~= taken);
    lemma_word_sum_same(result, with_checksum(taken, header), header as nat / 2);
}

/// Reflecting a reflected datagram twice gives it back.
pub proof fn law_two_more_reflections_change_nothing(packet: Seq<u8>)
    requires
        is_ipv4_udp(packet),
    ensures
        reflected(reflected(reflected(packet))) == reflected(packet),
{
    let once = reflected(packet);
    let twice = reflected(once);
    let thrice = reflected(twice);
    law_reflection_swaps_endpoints(packet);
    law_reflection_swaps_endpoints(once);
    let first = endpoints_swapped(packet);
    let third = endpoints_swapped(twice);
    assert(once[0] == packet[0] && twice[0] == packet[0]);
    assert forall|i: int| 0 <= i < packet.len() implies first[i] == third[i] by {}
    assert(first =~= third);
    assert(thrice =~= once);
}

/// A UDP packet is parsed exactly where its bytes are those of a whole, unfragmented IPv4
/// packet with a whole UDP datagram in it. What is parsed stands in the bytes, most
/// significant byte first.
pub proof fn law_parsed_fields_stand_in_the_bytes(packet: &[u8], r: Option<Ipv4UdpPacket>)
    requires
        call_ensures(parse_ipv4_udp, (packet,), r),
    ensures
        r is Some <==> {
            let header = (packet@[0] % 16) * 4;
            let total = packet@[2] * 256 + packet@[3];
            let udp = packet@[header + 4] * 256 + packet@[header + 5];
            &&& packet@.len() >= 28
            &&& 0x40 <= packet@[0] < 0x50
            &&& header >= 20
            &&& header + 8 <= total
            &&& total <= packet@.len()
            &&& packet@[9] == 17
            &&& packet@[6] % 64 == 0 && packet@[7] == 0
            &&& udp >= 8
            &&& header + udp <= total
        },
        r matches Some(fields) ==> {
            let header = (packet@[0] % 16) * 4;
            &&& fields.source.bits == packet@[12] * 0x100_0000 + packet@[13] * 0x1_0000
                + packet@[14] * 0x100 + packet@[15]
            &&& fields.destination.bits == packet@[16] * 0x100_0000 + packet@[17] * 0x1_0000
                + packet@[18] * 0x100 + packet@[19]
            &&& fields.source_port == packet@[header] * 256 + packet@[header + 1]
            &&& fields.destination_port == packet@[header + 2] * 256 + packet@[header + 3]
            &&& fields.payload_offset == header + 8
            &&& fields.total_len == packet@[2] * 256 + packet@[3]
        },
{
}

/// The words of a header are summed up one by one, most significant byte first.
pub proof fn law_words_are_summed_up(bytes: Seq<u8>, words: nat)
    ensures
        word_sum(bytes, 0) == 0,
        word_sum(bytes, words + 1) == word_sum(bytes, words) + bytes[2 * words as int] * 256
            + bytes[2 * words as int + 1],
{
}

/// A checksum completes the sum of a header's words to a multiple of 65535, and it is
/// all ones only where the header is all zeros.
pub proof fn law_checksums_complete_the_sum(header: &[u8], r: u16)
    requires
        call_ensures(ipv4_header_checksum, (header,), r),
    ensures
        (word_sum(header@, header@.len() / 2) + r) % 0xffff == 0,
        r == 0xffff <==> word_sum(header@, header@.len() / 2) == 0,
{
    let sum = word_sum(header@, header@.len() / 2);
    if sum > 0 {
        let rest = (sum - 1) % 0xffff;
        assert(sum + r == (sum - 1) / 0xffff * 0xffff + 0xffff);
    }
}

/// A reflected packet goes back to where it came from: addresses and ports change places,
/// the UDP checksum is switched off, and nothing else changes but the header checksum,
/// which is right again. Anything that is not such a packet stays as it is.
pub proof fn law_reflection_swaps_the_bytes(r: Option<Ipv4Addr>, parsed: Option<Ipv4UdpPacket>)
    ensures
        forall|packet: &mut [u8], before: &[u8]|
            #![trigger call_ensures(reflect_ipv4_udp, (packet,), r), call_ensures(
                parse_ipv4_udp,
                (before,),
                parsed,
            )]
            call_ensures(reflect_ipv4_udp, (packet,), r) && call_ensures(
                parse_ipv4_udp,
                (before,),
                parsed,
            ) && before@ == packet@ ==> {
                let header = (packet@[0] % 16) * 4;
                let after = final(packet)@;
                &&& r is Some <==> parsed is Some
                &&& r is None ==> after == packet@
                &&& r matches Some(source) ==> {
                    &&& parsed matches Some(fields) && source == fields.source
                    &&& after.len() == packet@.len()
                    &&& forall|i: int|
                        0 <= i < 4 ==> #[trigger] after[12 + i] == packet@[16 + i]
                    &&& forall|i: int|
                        0 <= i < 4 ==> #[trigger] after[16 + i] == packet@[12 + i]
                    &&& after[header as int] == packet@[header + 2]
                    &&& after[header + 1] == packet@[header + 3]
                    &&& after[header + 2] == packet@[header as int]
                    &&& after[header + 3] == packet@[header + 1]
                    &&& after[header + 6] == 0 && after[header + 7] == 0
                    &&& forall|i: int|
                        (0 <= i < 10 || 20 <= i < header || i == header + 4 || i == header + 5
                            || header + 8 <= i < after.len()) ==> #[trigger] after[i] == packet@[i]
                    &&& word_sum(after, header as nat / 2) % 0xffff == 0
                }
            },
{
    assert forall|packet: &mut [u8], before: &[u8]|
        #![trigger call_ensures(reflect_ipv4_udp, (packet,), r), call_ensures(
            parse_ipv4_udp,
            (before,),
            parsed,
        )]
        call_ensures(reflect_ipv4_udp, (packet,), r) && call_ensures(
            parse_ipv4_udp,
            (before,),
            parsed,
        ) && before@ == packet@ implies {
        let header = (packet@[0] % 16) * 4;
        let after = final(packet)@;
        &&& r is Some <==> parsed is Some
        &&& r is None ==> after == packet@
        &&& r matches Some(source) ==> {
            &&& parsed matches Some(fields) && source == fields.source
            &&& after.len() == packet@.len()
            &&& forall|i: int|
                0 <= i < 4 ==> #[trigger] after[12 + i] == packet@[16 + i]
            &&& forall|i: int|
                0 <= i < 4 ==> #[trigger] after[16 + i] == packet@[12 + i]
            &&& after[header as int] == packet@[header + 2]
            &&& after[header + 1] == packet@[header + 3]
            &&& after[header + 2] == packet@[header as int]
            &&& after[header + 3] == packet@[header + 1]
            &&& after[header + 6] == 0 && after[header + 7] == 0
            &&& forall|i: int|
                (0 <= i < 10 || 20 <= i < header || i == header + 4 || i == header + 5 || header
                    + 8 <= i < after.len()) ==> #[trigger] after[i] == packet@[i]
            &&& word_sum(after, header as nat / 2) % 0xffff == 0
        }
    } by {
        if is_ipv4_udp(packet@) {
            law_reflection_swaps_endpoints(packet@);
        }
    }
}

} // verus!
