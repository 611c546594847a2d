//! Port filters that decide which frames an XDP program redirects to AF_XDP
//! sockets, and the map contract between the programs and userspace.
//!
//! One filter uses a membership array and suits sparse UDP ports. The other uses
//! an inclusive range and suits a large contiguous block. Both pass non-UDP
//! traffic and unmatched UDP traffic back to the OS.

use vstd::prelude::*;

use crate::bytes::{be16, filled_with, read_be16};

verus! {

/// Max `(rx_queue_index -> AF_XDP fd)` entries in the socket map.
pub const MAX_QUEUES: u32 = 256;

/// Number of UDP destination-port membership slots.
pub const BOUND_PORTS_LEN: u32 = 65536;

/// Number of entries in the bound-port counter map.
pub const BOUND_PORT_COUNT_LEN: u32 = 1;

/// Alias for users that name the port-map capacity.
pub const MAX_BOUND_PORTS: u32 = BOUND_PORTS_LEN;

/// Number of entries in the port-range map.
///
/// Slot [`BOUND_PORT_RANGE_START`] stores the inclusive first UDP destination
/// port. Slot [`BOUND_PORT_RANGE_END`] stores the inclusive last UDP destination
/// port. The all-zero range is disabled, so a freshly loaded program passes all
/// traffic to the OS until userspace configures it.
pub const BOUND_PORT_RANGE_LEN: u32 = 2;

/// Index of the inclusive start port in the port-range map.
pub const BOUND_PORT_RANGE_START: u32 = 0;

/// Index of the inclusive end port in the port-range map.
pub const BOUND_PORT_RANGE_END: u32 = 1;

/// XDP program name for the per-port membership array filter.
pub const BOUND_PORTS_PROGRAM: &'static str = "fast_socket_xdp";

/// XDP program name for the inclusive UDP destination-port range filter.
pub const PORT_RANGE_PROGRAM: &'static str = "fast_socket_xdp_port_range";

/// Number of drop-reason buckets. Each slot counts the frames that were dropped
/// for the corresponding reason.
pub const DROP_COUNTERS_LEN: u32 = 2;

/// Drop reason: the frame arrived on a queue with no AF_XDP socket registered.
pub const DROP_REASON_XSKMAP_MISS: u32 = 0;

/// Drop reason: the frame was destined for a bound UDP port but the redirect
/// returned an error other than a miss, so the counter sum equals every dropped
/// frame.
pub const DROP_REASON_REDIRECT_ERROR: u32 = 1;

/// XDP action of a program that failed.
pub const XDP_ABORTED: u32 = 0;

/// XDP action that drops the frame.
pub const XDP_DROP: u32 = 1;

/// XDP action that passes the frame to the OS.
pub const XDP_PASS: u32 = 2;

/// XDP action that redirects the frame.
pub const XDP_REDIRECT: u32 = 4;

/// Offset of the ethertype in an Ethernet frame.
pub const ETHER_TYPE_OFFSET: usize = 12;

/// Offset of the ethertype behind one VLAN tag.
pub const VLAN_INNER_ETHER_TYPE_OFFSET: usize = 16;

/// Offset of the ethertype behind two VLAN tags.
pub const QINQ_INNER_ETHER_TYPE_OFFSET: usize = 20;

/// Ethertype of IPv4.
pub const ETHERTYPE_IPV4: u16 = 0x0800;

/// Ethertype of a single 802.1Q tag.
pub const ETHERTYPE_VLAN: u16 = 0x8100;

/// Ethertype of the outer 802.1ad tag of two stacked tags.
pub const ETHERTYPE_QINQ: u16 = 0x88a8;

/// Length of an IPv4 header without options.
pub const IPV4_MIN_HEADER_LEN: usize = 20;

/// Length of a UDP header.
pub const UDP_HEADER_LEN: usize = 8;

/// IP protocol number of UDP.
pub const IPV4_PROTOCOL_UDP: u8 = 17;

/// 8-byte-aligned wrapper for embedded BPF object bytes.
#[derive(Clone, Copy, Debug)]
pub struct Aligned<Bytes>(pub Bytes);

impl<Bytes> Aligned<Bytes> {
    /// Borrows the wrapped bytes.
    pub fn get(&self) -> (r: &Bytes)
        ensures
            *r == self.0,
    {
        &self.0
    }
}

/// A frame ends before a field that has to be read.
#[derive(Clone, Copy, Debug, Eq, PartialEq, Structural)]
pub struct Truncated;

/// The 16-bit number at `at` when the frame holds it.
pub open spec fn frame_be16(frame: Seq<u8>, at: int) -> Result<int, Truncated> {
    if at + 2 <= frame.len() {
        Ok(be16(frame[at], frame[at + 1]))
    } else {
        Err(Truncated)
    }
}

/// The ethertype behind the VLAN tags, and the offset of what follows it.
///
/// An 802.1Q tag is skipped, and so is an 802.1ad tag with an 802.1Q tag in it.
/// Behind an 802.1ad tag any other ethertype counts as it stands.
pub open spec fn ethertype_spec(frame: Seq<u8>) -> Result<(int, int), Truncated> {
    match frame_be16(frame, 12) {
        Err(error) => Err(error),
        Ok(outer) => if outer != 0x8100 && outer != 0x88a8 {
            Ok((outer, 14))
        } else {
            match frame_be16(frame, 16) {
                Err(error) => Err(error),
                Ok(inner) => if outer == 0x88a8 && inner == 0x8100 {
                    match frame_be16(frame, 20) {
                        Err(error) => Err(error),
                        Ok(innermost) => Ok((innermost, 22)),
                    }
                } else {
                    Ok((inner, 18))
                },
            }
        },
    }
}

/// The length of the IPv4 header whose first byte is `first`.
pub open spec fn ipv4_header_len(first: u8) -> int {
    (first as int % 16) * 4
}

/// The bytes at `at` start an unfragmented IPv4 packet with UDP payload.
pub open spec fn is_whole_udp(frame: Seq<u8>, at: int) -> bool {
    &&& frame[at] as int / 16 == 4
    &&& ipv4_header_len(frame[at]) >= 20
    &&& be16(frame[at + 6], frame[at + 7]) % 0x4000 == 0
    &&& frame[at + 9] == 17
}

/// The UDP destination port of the IPv4 packet at `at`, if it is unfragmented UDP.
pub open spec fn ipv4_port_spec(frame: Seq<u8>, at: int) -> Result<Option<int>, Truncated> {
    if at + 20 > frame.len() {
        Err(Truncated)
    } else if !is_whole_udp(frame, at) {
        Ok(None)
    } else {
        let udp = at + ipv4_header_len(frame[at]);
        if udp + 8 > frame.len() {
            Err(Truncated)
        } else {
            Ok(Some(be16(frame[udp + 2], frame[udp + 3])))
        }
    }
}

/// The UDP destination port of a frame, if it holds an unfragmented IPv4/UDP packet.
pub open spec fn frame_port(frame: Seq<u8>) -> Result<Option<int>, Truncated> {
    match ethertype_spec(frame) {
        Err(error) => Err(error),
        Ok((ethertype, at)) => if ethertype != 0x0800 {
            Ok(None)
        } else {
            ipv4_port_spec(frame, at)
        },
    }
}

fn read_u16_be(frame: &[u8], at: usize) -> (r: Result<u16, Truncated>)
    requires
        at <= 64,
    ensures
        match r {
            Ok(value) => frame_be16(frame@, at as int) == Ok::<int, Truncated>(value as int),
            Err(error) => frame_be16(frame@, at as int) == Err::<int, Truncated>(error),
        },
{
    if frame.len() < at + 2 {
        return Err(Truncated);
    }
    Ok(read_be16(frame, at))
}

/// Returns the ethertype behind the VLAN tags and the offset of what follows it.
pub fn packet_ethertype(frame: &[u8]) -> (r: Result<(u16, usize), Truncated>)
    ensures
        match r {
            Ok((ethertype, at)) => ethertype_spec(frame@) == Ok::<(int, int), Truncated>(
                (ethertype as int, at as int),
            ) && at <= 22,
            Err(error) => ethertype_spec(frame@) == Err::<(int, int), Truncated>(error),
        },
{
    let outer: u16 = match read_u16_be(frame, ETHER_TYPE_OFFSET) {
        Ok(value) => value,
        Err(error) => {
            return Err(error);
        },
    };
    if outer != ETHERTYPE_VLAN && outer != ETHERTYPE_QINQ {
        return Ok((outer, 14));
    }
    let inner: u16 = match read_u16_be(frame, VLAN_INNER_ETHER_TYPE_OFFSET) {
        Ok(value) => value,
        Err(error) => {
            return Err(error);
        },
    };
    if outer == ETHERTYPE_VLAN || inner != ETHERTYPE_VLAN {
        return Ok((inner, 18));
    }
    match read_u16_be(frame, QINQ_INNER_ETHER_TYPE_OFFSET) {
        Ok(value) => Ok((value, 22)),
        Err(error) => Err(error),
    }
}

/// Returns the UDP destination port of the IPv4 packet at `l2_len`.
pub fn ipv4_udp_destination_port(frame: &[u8], l2_len: usize) -> (r: Result<
    Option<u16>,
    Truncated,
>)
    requires
        l2_len <= 22,
    ensures
        match r {
            Ok(Some(port)) => ipv4_port_spec(frame@, l2_len as int) == Ok::<
                Option<int>,
                Truncated,
            >(Some(port as int)),
            Ok(None) => ipv4_port_spec(frame@, l2_len as int) == Ok::<Option<int>, Truncated>(None),
            Err(error) => ipv4_port_spec(frame@, l2_len as int) == Err::<Option<int>, Truncated>(
                error,
            ),
        },
{
    if frame.len() < l2_len + IPV4_MIN_HEADER_LEN {
        return Err(Truncated);
    }
    let first: u8 = frame[l2_len];
    if first / 16 != 4 {
        return Ok(None);
    }
    let header_len: usize = (first % 16) as usize * 4;
    if header_len < IPV4_MIN_HEADER_LEN {
        return Ok(None);
    }
    if read_be16(frame, l2_len + 6) % 0x4000 != 0 {
        return Ok(None);
    }
    if frame[l2_len + 9] != IPV4_PROTOCOL_UDP {
        return Ok(None);
    }
    let udp: usize = l2_len + header_len;
    if frame.len() < udp + UDP_HEADER_LEN {
        return Err(Truncated);
    }
    Ok(Some(read_be16(frame, udp + 2)))
}

/// Returns the UDP destination port of a frame, if it holds an unfragmented
/// IPv4/UDP packet.
pub fn packet_udp_destination_port(frame: &[u8]) -> (r: Result<Option<u16>, Truncated>)
    ensures
        match r {
            Ok(Some(port)) => frame_port(frame@) == Ok::<Option<int>, Truncated>(Some(port as int)),
            Ok(None) => frame_port(frame@) == Ok::<Option<int>, Truncated>(None),
            Err(error) => frame_port(frame@) == Err::<Option<int>, Truncated>(error),
        },
{
    match packet_ethertype(frame) {
        Ok((ethertype, l2_len)) => if ethertype != ETHERTYPE_IPV4 {
            Ok(None)
        } else {
            ipv4_udp_destination_port(frame, l2_len)
        },
        Err(error) => Err(error),
    }
}

/// The contents of the maps that userspace and the programs share.
pub struct FilterMaps {
    /// One membership byte per UDP destination port.
    pub bound_ports: Vec<u8>,
    /// Number of non-zero entries in `bound_ports`, in its only slot.
    pub bound_port_count: Vec<u32>,
    /// The inclusive UDP destination-port range.
    pub bound_port_range: Vec<u16>,
    /// Frames dropped, per reason.
    pub drop_counters: Vec<u64>,
}

/// The frame's port is selected by the membership array, which is in use.
pub open spec fn port_selected(maps: FilterMaps, port: int) -> bool {
    &&& maps.bound_port_count@.len() > 0
    &&& maps.bound_port_count@[0] != 0
    &&& port < maps.bound_ports@.len()
    &&& maps.bound_ports@[port] != 0
}

/// The frame's port lies in the range, which is in use.
pub open spec fn port_in_range(maps: FilterMaps, port: int) -> bool {
    &&& maps.bound_port_range@.len() >= 2
    &&& !(maps.bound_port_range@[0] == 0 && maps.bound_port_range@[1] == 0)
    &&& maps.bound_port_range@[0] <= port <= maps.bound_port_range@[1]
}

/// The drop counter that a failed redirect is counted in.
pub open spec fn failure_reason(code: u32) -> int {
    if code == XDP_ABORTED {
        0
    } else {
        1
    }
}

/// `counters` with one more drop for `reason`, where it has such a counter.
pub open spec fn counted_drop(counters: Seq<u64>, reason: int) -> Seq<u64> {
    if reason < counters.len() {
        counters.update(
            reason,
            if counters[reason] == u64::MAX {
                0
            } else {
                (counters[reason] + 1) as u64
            },
        )
    } else {
        counters
    }
}

impl FilterMaps {
    /// Creates the maps of a freshly loaded program: all zero, which passes all
    /// traffic to the OS.
    #[must_use]
    pub fn new() -> (r: Self)
        ensures
            r.bound_ports@ == Seq::new(65536, |i: int| 0u8),
            r.bound_port_count@ == Seq::new(1, |i: int| 0u32),
            r.bound_port_range@ == Seq::new(2, |i: int| 0u16),
            r.drop_counters@ == Seq::new(2, |i: int| 0u64),
            forall|port: int|
                0 <= port ==> !(#[trigger] port_selected(r, port)) && !port_in_range(r, port),
    {
        FilterMaps {
            bound_ports: filled_with(0u8, BOUND_PORTS_LEN as usize),
            bound_port_count: filled_with(0u32, BOUND_PORT_COUNT_LEN as usize),
            bound_port_range: filled_with(0u16, BOUND_PORT_RANGE_LEN as usize),
            drop_counters: filled_with(0u64, DROP_COUNTERS_LEN as usize),
        }
    }

    /// Returns whether any port is bound.
    #[must_use]
    pub fn has_bound_ports(&self) -> (r: bool)
        ensures
            r == (self.bound_port_count@.len() > 0 && self.bound_port_count@[0] != 0),
    {
        self.bound_port_count.len() > 0 && self.bound_port_count[0] != 0
    }

    /// Returns whether `port` is marked in the membership array.
    #[must_use]
    pub fn is_bound_port(&self, port: u16) -> (r: bool)
        ensures
            r == (port < self.bound_ports@.len() && self.bound_ports@[port as int] != 0),
    {
        let index: usize = port as usize;
        index < self.bound_ports.len() && self.bound_ports[index] != 0
    }

    /// Returns the inclusive port range, unless it is disabled or empty.
    #[must_use]
    pub fn bound_port_range(&self) -> (r: Option<(u16, u16)>)
        ensures
            match r {
                Some((start, end)) => {
                    &&& self.bound_port_range@.len() >= 2
                    &&& start == self.bound_port_range@[0]
                    &&& end == self.bound_port_range@[1]
                    &&& start <= end
                    &&& !(start == 0 && end == 0)
                },
                None => {
                    ||| self.bound_port_range@.len() < 2
                    ||| self.bound_port_range@[0] > self.bound_port_range@[1]
                    ||| self.bound_port_range@[0] == 0 && self.bound_port_range@[1] == 0
                },
            },
    {
        if self.bound_port_range.len() < 2 {
            return None;
        }
        let start: u16 = self.bound_port_range[0];
        let end: u16 = self.bound_port_range[1];
        if start == 0 && end == 0 {
            return None;
        }
        if start > end {
            return None;
        }
        Some((start, end))
    }

    /// Counts one dropped frame.
    pub fn increment_drop_counter(&mut self, reason: u32)
        ensures
            final(self).drop_counters@ == counted_drop(old(self).drop_counters@, reason as int),
            final(self).bound_ports == old(self).bound_ports,
            final(self).bound_port_count == old(self).bound_port_count,
            final(self).bound_port_range == old(self).bound_port_range,
    {
        let index: usize = reason as usize;
        if index < self.drop_counters.len() {
            let count: u64 = self.drop_counters[index];
            self.drop_counters[index] = count.wrapping_add(1);
        }
    }

    /// Turns what the redirect returned into an action. A failed redirect drops
    /// the frame and counts it: the filter has matched, so passing it on would
    /// hide that its queue is not registered.
    pub fn redirect_action(&mut self, outcome: Result<u32, u32>) -> (r: u32)
        ensures
            final(self).bound_ports == old(self).bound_ports,
            final(self).bound_port_count == old(self).bound_port_count,
            final(self).bound_port_range == old(self).bound_port_range,
            match outcome {
                Ok(action) => r == action && final(self).drop_counters == old(self).drop_counters,
                Err(code) => r == XDP_DROP && final(self).drop_counters@ == counted_drop(
                    old(self).drop_counters@,
                    failure_reason(code),
                ),
            },
    {
        match outcome {
            Ok(action) => action,
            Err(code) => {
                if code == XDP_ABORTED {
                    self.increment_drop_counter(DROP_REASON_XSKMAP_MISS);
                } else {
                    self.increment_drop_counter(DROP_REASON_REDIRECT_ERROR);
                }
                XDP_DROP
            },
        }
    }
}

/// The action taken on a frame: passed to the OS unless `selected`, otherwise what
/// the redirect makes of it.
pub open spec fn filtered<F: FnOnce() -> Result<u32, u32>>(
    selected: bool,
    redirect: F,
    before: FilterMaps,
    after: FilterMaps,
    taken: u32,
) -> bool {
    if !selected {
        taken == XDP_PASS && after == before
    } else {
        exists|outcome: Result<u32, u32>|
            {
                &&& #[trigger] call_ensures(redirect, (), outcome)
                &&& after.bound_ports == before.bound_ports
                &&& after.bound_port_count == before.bound_port_count
                &&& after.bound_port_range == before.bound_port_range
                &&& match outcome {
                    Ok(action) => taken == action && after.drop_counters == before.drop_counters,
                    Err(code) => taken == XDP_DROP && after.drop_counters@ == counted_drop(
                        before.drop_counters@,
                        failure_reason(code),
                    ),
                }
            }
    }
}

/// The membership array selects the frame.
pub open spec fn selected_by_ports(maps: FilterMaps, frame: Seq<u8>) -> bool {
    frame_port(frame) matches Ok(Some(port)) && port_selected(maps, port)
}

/// The port range selects the frame.
pub open spec fn selected_by_range(maps: FilterMaps, frame: Seq<u8>) -> bool {
    frame_port(frame) matches Ok(Some(port)) && port_in_range(maps, port)
}

/// Filters a frame by the membership array. `redirect` hands the frame to the
/// AF_XDP socket of its queue; it is called only for a selected frame.
pub fn fast_socket_xdp<F: FnOnce() -> Result<u32, u32>>(
    frame: &[u8],
    maps: &mut FilterMaps,
    redirect: F,
) -> (r: u32)
    requires
        selected_by_ports(*old(maps), frame@) ==> redirect.requires(()),
    ensures
        filtered(
            selected_by_ports(*old(maps), frame@),
            redirect,
            *old(maps),
            *final(maps),
            r,
        ),
{
    match packet_udp_destination_port(frame) {
        Ok(Some(port)) => {
            if !maps.has_bound_ports() {
                return XDP_PASS;
            }
            if !maps.is_bound_port(port) {
                return XDP_PASS;
            }
            let outcome = redirect();
            maps.redirect_action(outcome)
        },
        Ok(None) => XDP_PASS,
        Err(_) => XDP_PASS,
    }
}

/// Filters a frame by the port range. `redirect` hands the frame to the AF_XDP
/// socket of its queue; it is called only for a selected frame.
pub fn fast_socket_xdp_port_range<F: FnOnce() -> Result<u32, u32>>(
    frame: &[u8],
    maps: &mut FilterMaps,
    redirect: F,
) -> (r: u32)
    requires
        selected_by_range(*old(maps), frame@) ==> redirect.requires(()),
    ensures
        filtered(
            selected_by_range(*old(maps), frame@),
            redirect,
            *old(maps),
            *final(maps),
            r,
        ),
{
    match packet_udp_destination_port(frame) {
        Ok(Some(port)) => {
            match maps.bound_port_range() {
                Some((start, end)) => {
                    if port < start || port > end {
                        return XDP_PASS;
                    }
                    let outcome = redirect();
                    maps.redirect_action(outcome)
                },
                None => XDP_PASS,
            }
        },
        Ok(None) => XDP_PASS,
        Err(_) => XDP_PASS,
    }
}

/// The frames that the counters say were dropped.
pub open spec fn drops(counters: Seq<u64>) -> int {
    counters[0] + counters[1]
}

/// Every failed redirect is counted once: the counter sum equals the frames that
/// were dropped.
pub proof fn law_drop_counters_sum(counters: Seq<u64>, code: u32)
    requires
        counters.len() == DROP_COUNTERS_LEN,
        counters[0] < u64::MAX,
        counters[1] < u64::MAX,
    ensures
        drops(counted_drop(counters, failure_reason(code))) == drops(counters) + 1,
{
}

/// A program whose maps are all zero passes every frame to the OS, whichever
/// filter it runs.
pub proof fn law_fresh_filter_passes_everything(maps: FilterMaps, frame: Seq<u8>)
    requires
        maps.bound_port_count@ == Seq::new(1, |i: int| 0u32),
        maps.bound_port_range@ == Seq::new(2, |i: int| 0u16),
    ensures
        !selected_by_ports(maps, frame),
        !selected_by_range(maps, frame),
{
}

/// The range filter and the membership filter select the same frames when the
/// array marks exactly the ports of the range.
pub proof fn law_filters_agree(maps: FilterMaps, frame: Seq<u8>)
    requires
        maps.bound_ports@.len() == BOUND_PORTS_LEN,
        maps.bound_port_count@.len() == 1,
        maps.bound_port_count@[0] != 0,
        forall|port: int|
            0 <= port < 65536 ==> ((#[trigger] maps.bound_ports@[port]) != 0 <==> port_in_range(
                maps,
                port,
            )),
    ensures
        selected_by_ports(maps, frame) == selected_by_range(maps, frame),
{
    if let Ok(Some(port)) = frame_port(frame) {
        assert(0 <= port < 65536) by {
            assert(forall|h: u8, l: u8| 0 <= #[trigger] be16(h, l) < 65536);
        }
        assert(maps.bound_ports@[port] != 0 <==> port_in_range(maps, port));
    }
}

/// Bytes behind what a verdict rests on do not matter: a frame whose port is known, or
/// that is known to have none, keeps its verdict when anything follows it.
pub proof fn law_later_bytes_change_no_verdict(frame: Seq<u8>, tail: Seq<u8>)
    requires
        frame_port(frame) is Ok,
    ensures
        frame_port(frame + tail) == frame_port(frame),
{
    let longer = frame + tail;
    assert(forall|i: int| 0 <= i < frame.len() ==> #[trigger] longer[i] == frame[i]);
}

/// Whatever stands between the Ethernet addresses and an unfragmented IPv4/UDP packet
/// (nothing, one 802.1Q tag, or an 802.1ad tag with or without an 802.1Q tag), whatever
/// options the IPv4 header has and whatever the datagram carries: the frame's port is the
/// one in the UDP header.
pub proof fn law_udp_frames_have_their_port(
    addresses: Seq<u8>,
    tags: Seq<u8>,
    header: Seq<u8>,
    udp: Seq<u8>,
    payload: Seq<u8>,
)
    requires
        addresses.len() == 12,
        tags.len() == 0 || tags.len() == 4 || tags.len() == 8,
        tags.len() == 4 ==> (tags[0] == 0x81 && tags[1] == 0x00) || (tags[0] == 0x88 && tags[1]
            == 0xa8),
        tags.len() == 8 ==> tags[0] == 0x88 && tags[1] == 0xa8 && tags[4] == 0x81 && tags[5]
            == 0x00,
        20 <= header.len() <= 60,
        header[0] == 0x40 + header.len() / 4,
        header.len() % 4 == 0,
        header[6] == 0x00 || header[6] == 0x40 || header[6] == 0x80 || header[6] == 0xc0,
        header[7] == 0,
        header[9] == 17,
        udp.len() == 8,
    ensures
        frame_port(addresses + tags + seq![0x08u8, 0x00u8] + header + udp + payload) == Ok::<
            Option<int>,
            Truncated,
        >(Some(udp[2] * 256 + udp[3])),
{
    let frame = addresses + tags + seq![0x08u8, 0x00u8] + header + udp + payload;
    let at = 14 + tags.len() as int;
    assert(forall|i: int| 0 <= i < tags.len() ==> frame[12 + i] == #[trigger] tags[i]);
    assert(frame[at - 2] == 0x08 && frame[at - 1] == 0x00);
    assert(forall|i: int| 0 <= i < header.len() ==> frame[at + i] == #[trigger] header[i]);
    assert(forall|i: int|
        0 <= i < 8 ==> frame[at + header.len() + i] == #[trigger] udp[i]);
    if tags.len() > 0 {
        assert(frame[12] == tags[0] && frame[13] == tags[1]);
    }
    if tags.len() == 4 {
        assert(frame[16] == 0x08 && frame[17] == 0x00);
        assert(ethertype_spec(frame) == Ok::<(int, int), Truncated>((0x0800, 18)));
    } else if tags.len() == 8 {
        assert(frame[16] == tags[4] && frame[17] == tags[5]);
        assert(ethertype_spec(frame) == Ok::<(int, int), Truncated>((0x0800, 22)));
    } else {
        assert(ethertype_spec(frame) == Ok::<(int, int), Truncated>((0x0800, 14)));
    }
    assert(frame[at] == header[0]);
    assert(frame[at + 6] == header[6] && frame[at + 7] == header[7]);
    assert(frame[at + 9] == header[9]);
    assert(ipv4_header_len(frame[at]) == header.len());
    let start = at + header.len();
    assert(frame[start + 2] == udp[2] && frame[start + 3] == udp[3]);
}

/// A port is found only where it stands: behind the Ethernet header and its tags there is
/// an IPv4 header that says so, not of a fragment, and the UDP header behind it lies in
/// the frame and holds the port.
pub proof fn law_found_ports_are_in_the_frame(frame: Seq<u8>, port: int)
    requires
        frame_port(frame) == Ok::<Option<int>, Truncated>(Some(port)),
    ensures
        exists|at: int, words: int|
            {
                &&& at == 14 || at == 18 || at == 22
                &&& 5 <= words <= 15
                &&& #[trigger] (at + 4 * words) + 8 <= frame.len()
                &&& frame[at - 2] == 0x08 && frame[at - 1] == 0x00
                &&& frame[at] == 0x40 + words
                &&& frame[at + 6] % 0x40 == 0 && frame[at + 7] == 0
                &&& frame[at + 9] == 17
                &&& port == frame[at + 4 * words + 2] * 256 + frame[at + 4 * words + 3]
            },
{
    let at = ethertype_spec(frame)->Ok_0.1;
    let words = frame[at] as int % 16;
    assert(at == 14 || at == 18 || at == 22);
    assert(frame[at] == 0x40 + words);
    let high = frame[at + 6] as int;
    let low = frame[at + 7] as int;
    assert((high * 256 + low) % 0x4000 == 0);
    assert(high % 0x40 == 0 && low == 0);
    assert((at + 4 * words) + 8 <= frame.len());
}

/// A frame of another protocol than IPv4, and one that holds all that an IPv4/UDP packet
/// needs, are never cut short.
pub proof fn law_whole_frames_are_not_truncated(frame: Seq<u8>)
    requires
        frame.len() >= 90 || (frame.len() >= 14 && !(frame[12] == 0x08 && frame[13] == 0x00)
            && !(frame[12] == 0x81 && frame[13] == 0x00) && !(frame[12] == 0x88 && frame[13]
            == 0xa8)),
    ensures
        frame_port(frame) is Ok,
        frame.len() < 90 ==> frame_port(frame) == Ok::<Option<int>, Truncated>(None),
{
}

/// What the filter by membership array does with a frame: a frame of a port that is
/// marked, while any is, goes to the redirect, and every other frame passes to the OS and
/// changes nothing.
pub proof fn law_bound_ports_are_redirected<F: FnOnce() -> Result<u32, u32>>(
    frame: &[u8],
    redirect: F,
    taken: u32,
)
    ensures
        forall|maps: &mut FilterMaps|
            #![trigger call_ensures(fast_socket_xdp::<F>, (frame, maps, redirect), taken)]
            call_ensures(fast_socket_xdp::<F>, (frame, maps, redirect), taken) ==> {
                let marked = frame_port(frame@) matches Ok(Some(port)) && port
                    < maps.bound_ports@.len() && maps.bound_ports@[port] != 0;
                let in_use = maps.bound_port_count@.len() > 0 && maps.bound_port_count@[0] != 0;
                if marked && in_use {
                    exists|outcome: Result<u32, u32>|
                        {
                            &&& #[trigger] call_ensures(redirect, (), outcome)
                            &&& taken == (match outcome {
                                Ok(action) => action,
                                Err(_) => 1u32,
                            })
                        }
                } else {
                    taken == 2 && *final(maps) == *maps
                }
            },
{
}

/// What the filter by range does with a frame: a frame of a port from the first to the
/// last of the range, both included, goes to the redirect, and every other frame passes
/// to the OS and changes nothing. A range of two zeros selects nothing.
pub proof fn law_range_ports_are_redirected<F: FnOnce() -> Result<u32, u32>>(
    frame: &[u8],
    redirect: F,
    taken: u32,
)
    ensures
        forall|maps: &mut FilterMaps|
            #![trigger call_ensures(fast_socket_xdp_port_range::<F>, (frame, maps, redirect), taken)]
            call_ensures(fast_socket_xdp_port_range::<F>, (frame, maps, redirect), taken)
                && maps.bound_port_range@.len() == 2 ==> {
                let first = maps.bound_port_range@[0];
                let last = maps.bound_port_range@[1];
                if (first != 0 || last != 0) && (frame_port(frame@) matches Ok(Some(port))
                    && first <= port && port <= last) {
                    exists|outcome: Result<u32, u32>|
                        {
                            &&& #[trigger] call_ensures(redirect, (), outcome)
                            &&& taken == (match outcome {
                                Ok(action) => action,
                                Err(_) => 1u32,
                            })
                        }
                } else {
                    taken == 2 && *final(maps) == *maps
                }
            },
{
}

/// A redirect that fails drops the frame and adds one to a counter: the first one where
/// the queue has no socket (code 0), the second one otherwise. One that succeeds decides
/// the action and counts nothing.
pub proof fn law_failed_redirects_are_counted(outcome: Result<u32, u32>, taken: u32)
    ensures
        forall|maps: &mut FilterMaps|
            #![trigger call_ensures(FilterMaps::redirect_action, (maps, outcome), taken)]
            call_ensures(FilterMaps::redirect_action, (maps, outcome), taken)
                && maps.drop_counters@.len() == 2 ==> {
                let before = maps.drop_counters@;
                let after = final(maps).drop_counters@;
                match outcome {
                    Ok(action) => taken == action && after == before,
                    Err(code) => {
                        let (reason, other) = if code == 0 {
                            (0int, 1int)
                        } else {
                            (1int, 0int)
                        };
                        &&& taken == 1
                        &&& after.len() == 2
                        &&& after[other] == before[other]
                        &&& before[reason] < u64::MAX ==> after[reason] == before[reason] + 1
                        &&& before[reason] == u64::MAX ==> after[reason] == 0
                    },
                }
            },
{
}

/// The type of a frame stands behind its addresses, behind one VLAN tag, or behind an outer
/// and an inner one. The packet follows it.
pub proof fn law_frame_types_stand_behind_the_tags(
    frame: &[u8],
    r: Result<(u16, usize), Truncated>,
)
    requires
        call_ensures(packet_ethertype, (frame,), r),
    ensures
        ({
            let f = frame@;
            let word = |at: int| f[at] * 256 + f[at + 1];
            let plain = word(12) != 0x8100 && word(12) != 0x88a8;
            let double = word(12) == 0x88a8 && word(16) == 0x8100;
            let at = if plain {
                14int
            } else if double {
                22
            } else {
                18
            };
            &&& r matches Ok((ethertype, start)) ==> f.len() >= at && start == at && ethertype
                == word(at - 2)
            &&& r is Err ==> f.len() < 14 || (!plain && f.len() < 18) || (double && f.len() < 22)
        }),
{
}

/// Ports are selected where any is bound and theirs is marked. A range is used where it is
/// not empty and not the one that holds port zero alone.
pub proof fn law_maps_select_ports(maps: &FilterMaps, port: u16, any: bool, bound: bool)
    requires
        call_ensures(FilterMaps::has_bound_ports, (maps,), any),
        call_ensures(FilterMaps::is_bound_port, (maps, port), bound),
    ensures
        any <==> maps.bound_port_count@.len() > 0 && maps.bound_port_count@[0] > 0,
        bound <==> port < maps.bound_ports@.len() && maps.bound_ports@[port as int] > 0,
        forall|range: Option<(u16, u16)>| #[trigger]
            call_ensures(FilterMaps::bound_port_range, (maps,), range) ==> {
                let kept = maps.bound_port_range@;
                &&& range matches Some((start, end)) ==> kept.len() >= 2 && start == kept[0] && end
                    == kept[1]
                &&& range is None <==> kept.len() < 2 || kept[0] > kept[1] || kept[1] == 0
            },
        forall|counted: &mut FilterMaps, reason: u32| #[trigger]
            call_ensures(FilterMaps::increment_drop_counter, (counted, reason), ()) ==> {
                let before = counted.drop_counters@;
                let after = final(counted).drop_counters@;
                &&& after.len() == before.len()
                &&& reason < before.len() && before[reason as int] < u64::MAX
                    ==> after[reason as int] == before[reason as int] + 1
                &&& forall|i: int|
                    0 <= i < before.len() && i != reason ==> #[trigger] after[i] == before[i]
            },
{
}

} // verus!
