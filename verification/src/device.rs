//! Device and port side API for raw backends.

use vstd::prelude::*;

use crate::error::Error;
use crate::sys::{IfIndex, NumaNode, QueueAffinity, QueueId};

verus! {

/// Raw-device capability flags.
#[derive(Clone, Copy, Debug, Default, Eq, Hash, PartialEq, Structural)]
pub struct Capabilities(u64);

impl Capabilities {
    /// No capabilities.
    #[must_use]
    pub fn none() -> (r: Self)
        ensures
            r@ == 0,
    {
        Self(0)
    }

    /// IPv4 checksum offload.
    #[must_use]
    pub fn checksum_ipv4() -> (r: Self)
        ensures
            r@ == 0x1,
    {
        Self(0x1)
    }

    /// L4 checksum offload.
    #[must_use]
    pub fn checksum_l4() -> (r: Self)
        ensures
            r@ == 0x2,
    {
        Self(0x2)
    }

    /// Receive-side scaling.
    #[must_use]
    pub fn rss() -> (r: Self)
        ensures
            r@ == 0x4,
    {
        Self(0x4)
    }

    /// Hardware transmit segmentation offload.
    #[must_use]
    pub fn tso() -> (r: Self)
        ensures
            r@ == 0x8,
    {
        Self(0x8)
    }

    /// Receive coalescing.
    #[must_use]
    pub fn gro() -> (r: Self)
        ensures
            r@ == 0x10,
    {
        Self(0x10)
    }

    /// Receive timestamping.
    #[must_use]
    pub fn rx_timestamp() -> (r: Self)
        ensures
            r@ == 0x40,
    {
        Self(0x40)
    }

    /// Transmit timestamping.
    #[must_use]
    pub fn tx_timestamp() -> (r: Self)
        ensures
            r@ == 0x80,
    {
        Self(0x80)
    }

    /// Inline security features.
    #[must_use]
    pub fn inline_security() -> (r: Self)
        ensures
            r@ == 0x100,
    {
        Self(0x100)
    }

    /// The raw bits.
    pub closed spec fn view(&self) -> u64 {
        self.0
    }

    /// Creates capabilities from raw bits.
    #[must_use]
    pub fn from_bits(bits: u64) -> (r: Self)
        ensures
            r@ == bits,
    {
        Self(bits)
    }

    /// Returns the raw bit representation.
    #[must_use]
    pub fn bits(self) -> (r: u64)
        ensures
            r == self@,
    {
        self.0
    }

    /// All `capabilities` are present.
    pub open spec fn has_all(self, capabilities: Self) -> bool {
        self@ & capabilities@ == capabilities@
    }

    /// Returns `true` when all `capabilities` are present.
    #[must_use]
    pub fn contains(self, capabilities: Self) -> (r: bool)
        ensures
            r == self.has_all(capabilities),
    {
        (self.0 & capabilities.0) == capabilities.0
    }

    /// Returns these capabilities plus `capabilities`.
    #[must_use]
    pub fn union(self, capabilities: Self) -> (r: Self)
        ensures
            r@ == self@ | capabilities@,
    {
        Self(self.0 | capabilities.0)
    }

    /// The capabilities with the given raw bits.
    pub closed spec fn of_bits(bits: u64) -> Self {
        Self(bits)
    }
}

impl core::ops::BitOr for Capabilities {
    type Output = Self;

    fn bitor(self, rhs: Self) -> (r: Self)
        ensures
            r@ == self@ | rhs@,
    {
        self.union(rhs)
    }
}

impl vstd::std_specs::ops::BitOrSpecImpl for Capabilities {
    open spec fn obeys_bitor_spec() -> bool {
        true
    }

    open spec fn bitor_req(self, rhs: Self) -> bool {
        true
    }

    open spec fn bitor_spec(self, rhs: Self) -> Self {
        Self::of_bits(self@ | rhs@)
    }
}

/// A union contains both of its parts, and nothing that neither part has a bit of.
pub proof fn law_capability_union(left: Capabilities, right: Capabilities, both: Capabilities)
    requires
        both@ == left@ | right@,
    ensures
        both.has_all(left),
        both.has_all(right),
        forall|other: Capabilities|
            #![trigger other@]
            other@ & left@ == 0 && other@ & right@ == 0 ==> other@ & both@ == 0,
{
    let l = left@;
    let r = right@;
    assert((l | r) & l == l) by (bit_vector);
    assert((l | r) & r == r) by (bit_vector);
    assert forall|other: Capabilities|
        #![trigger other@]
        other@ & left@ == 0 && other@ & right@ == 0 implies other@ & both@ == 0 by {
        let o = other@;
        assert(o & l == 0 && o & r == 0 ==> o & (l | r) == 0) by (bit_vector);
    }
}

/// Cumulative raw device or queue statistics snapshot.
#[derive(Clone, Copy, Debug, Default, Eq, PartialEq, Structural)]
pub struct RawDeviceStats {
    /// Successfully received packets.
    pub rx_packets: u64,
    /// Successfully received bytes.
    pub rx_bytes: u64,
    /// Successfully transmitted packets.
    pub tx_packets: u64,
    /// Successfully transmitted bytes.
    pub tx_bytes: u64,
    /// Dropped fragmented packets when the backend filters them.
    pub dropped_fragments: u64,
    /// Transmit attempts that exceeded MTU.
    pub dropped_tx_oversize: u64,
    /// Receive packets dropped because they did not fit in the configured RX
    /// buffer.
    pub dropped_rx_oversize: u64,
    /// Ring-full events or retries.
    pub ring_full: u64,
}

/// The exact sum of one counter over several snapshots.
pub open spec fn counter_sum(counters: Seq<u64>) -> nat
    decreases counters.len(),
{
    if counters.len() == 0 {
        0
    } else {
        counter_sum(counters.drop_last()) + counters.last() as nat
    }
}

/// `sum` held at the largest 64-bit value where it does not fit.
pub open spec fn saturated(sum: nat) -> u64 {
    if sum > u64::MAX {
        u64::MAX
    } else {
        sum as u64
    }
}

/// Every counter is the saturated sum of that counter over all snapshots.
pub open spec fn stats_total(snapshots: Seq<RawDeviceStats>) -> RawDeviceStats {
    RawDeviceStats {
        rx_packets: saturated(counter_sum(snapshots.map_values(|s: RawDeviceStats| s.rx_packets))),
        rx_bytes: saturated(counter_sum(snapshots.map_values(|s: RawDeviceStats| s.rx_bytes))),
        tx_packets: saturated(counter_sum(snapshots.map_values(|s: RawDeviceStats| s.tx_packets))),
        tx_bytes: saturated(counter_sum(snapshots.map_values(|s: RawDeviceStats| s.tx_bytes))),
        dropped_fragments: saturated(
            counter_sum(snapshots.map_values(|s: RawDeviceStats| s.dropped_fragments)),
        ),
        dropped_tx_oversize: saturated(
            counter_sum(snapshots.map_values(|s: RawDeviceStats| s.dropped_tx_oversize)),
        ),
        dropped_rx_oversize: saturated(
            counter_sum(snapshots.map_values(|s: RawDeviceStats| s.dropped_rx_oversize)),
        ),
        ring_full: saturated(counter_sum(snapshots.map_values(|s: RawDeviceStats| s.ring_full))),
    }
}

proof fn lemma_counter_sum_push(
    snapshots: Seq<RawDeviceStats>,
    next: RawDeviceStats,
    counter: spec_fn(RawDeviceStats) -> u64,
)
    ensures
        counter_sum(snapshots.push(next).map_values(counter)) == counter_sum(
            snapshots.map_values(counter),
        ) + counter(next) as nat,
{
    let longer = snapshots.push(next).map_values(counter);
    assert(longer.drop_last() =~= snapshots.map_values(counter));
}

proof fn lemma_stats_total_push(snapshots: Seq<RawDeviceStats>, next: RawDeviceStats)
    ensures
        stats_total(snapshots.push(next)) == stats_total(snapshots).plus(next),
{
    lemma_counter_sum_push(snapshots, next, |s: RawDeviceStats| s.rx_packets);
    lemma_counter_sum_push(snapshots, next, |s: RawDeviceStats| s.rx_bytes);
    lemma_counter_sum_push(snapshots, next, |s: RawDeviceStats| s.tx_packets);
    lemma_counter_sum_push(snapshots, next, |s: RawDeviceStats| s.tx_bytes);
    lemma_counter_sum_push(snapshots, next, |s: RawDeviceStats| s.dropped_fragments);
    lemma_counter_sum_push(snapshots, next, |s: RawDeviceStats| s.dropped_tx_oversize);
    lemma_counter_sum_push(snapshots, next, |s: RawDeviceStats| s.dropped_rx_oversize);
    lemma_counter_sum_push(snapshots, next, |s: RawDeviceStats| s.ring_full);
}

impl RawDeviceStats {
    /// Counter-wise saturating sum.
    pub open spec fn plus(self, other: RawDeviceStats) -> RawDeviceStats {
        RawDeviceStats {
            rx_packets: saturated((self.rx_packets + other.rx_packets) as nat),
            rx_bytes: saturated((self.rx_bytes + other.rx_bytes) as nat),
            tx_packets: saturated((self.tx_packets + other.tx_packets) as nat),
            tx_bytes: saturated((self.tx_bytes + other.tx_bytes) as nat),
            dropped_fragments: saturated((self.dropped_fragments + other.dropped_fragments) as nat),
            dropped_tx_oversize: saturated(
                (self.dropped_tx_oversize + other.dropped_tx_oversize) as nat,
            ),
            dropped_rx_oversize: saturated(
                (self.dropped_rx_oversize + other.dropped_rx_oversize) as nat,
            ),
            ring_full: saturated((self.ring_full + other.ring_full) as nat),
        }
    }

    /// The snapshot in which nothing has been counted.
    #[must_use]
    pub fn zero() -> (r: Self)
        ensures
            r == stats_total(Seq::empty()),
    {
        RawDeviceStats {
            rx_packets: 0,
            rx_bytes: 0,
            tx_packets: 0,
            tx_bytes: 0,
            dropped_fragments: 0,
            dropped_tx_oversize: 0,
            dropped_rx_oversize: 0,
            ring_full: 0,
        }
    }

    /// Adds `other` counter by counter, saturating.
    pub fn saturating_add(self, other: RawDeviceStats) -> (r: Self)
        ensures
            r == self.plus(other),
    {
        RawDeviceStats {
            rx_packets: self.rx_packets.saturating_add(other.rx_packets),
            rx_bytes: self.rx_bytes.saturating_add(other.rx_bytes),
            tx_packets: self.tx_packets.saturating_add(other.tx_packets),
            tx_bytes: self.tx_bytes.saturating_add(other.tx_bytes),
            dropped_fragments: self.dropped_fragments.saturating_add(other.dropped_fragments),
            dropped_tx_oversize: self.dropped_tx_oversize.saturating_add(other.dropped_tx_oversize),
            dropped_rx_oversize: self.dropped_rx_oversize.saturating_add(other.dropped_rx_oversize),
            ring_full: self.ring_full.saturating_add(other.ring_full),
        }
    }
}

/// Device and port side API for raw backends.
pub trait RawDevice {
    /// NIC RX queues this socket is bound to.
    closed spec fn queues(&self) -> Seq<QueueId> {
        arbitrary()
    }

    /// `stats` is a snapshot that this device may report for `queue`.
    closed spec fn reports(&self, queue: QueueId, stats: RawDeviceStats) -> bool {
        true
    }

    /// Stable identity for the underlying NIC port.
    fn ifindex(&self) -> (r: IfIndex);

    /// NIC RX queues this socket is bound to: one for a single-queue backend,
    /// all member queues for an aggregate.
    fn nic_queues(&self) -> (r: &[QueueId])
        ensures
            r@ == self.queues(),
    ;

    /// Static capability bitset for this port.
    fn capabilities(&self) -> (r: Capabilities);

    /// Affinity hint for one NIC queue.
    fn queue_affinity(&self, queue: QueueId) -> (r: QueueAffinity);

    /// NUMA node of one NIC queue's DMA-visible memory.
    fn queue_numa_node(&self, queue: QueueId) -> (r: Option<NumaNode>);

    /// Snapshot of cumulative counters for one NIC queue.
    fn stats(&self, queue: QueueId) -> (r: RawDeviceStats)
        ensures
            self.reports(queue, r),
    ;

    /// Sum of one snapshot of every NIC queue.
    fn total_stats(&self) -> (r: RawDeviceStats)
        ensures
            exists|snapshots: Seq<RawDeviceStats>|
                {
                    &&& snapshots.len() == self.queues().len()
                    &&& forall|i: int|
                        0 <= i < snapshots.len() ==> self.reports(
                            self.queues()[i],
                            #[trigger] snapshots[i],
                        )
                    &&& r == #[trigger] stats_total(snapshots)
                },
    {
        let queues = self.nic_queues();
        let mut total = RawDeviceStats::zero();
        let ghost mut snapshots: Seq<RawDeviceStats> = Seq::empty();
        let mut at: usize = 0;
        while at < queues.len()
            invariant
                at <= queues@.len(),
                queues@ == self.queues(),
                snapshots.len() == at,
                forall|i: int|
                    0 <= i < snapshots.len() ==> self.reports(
                        self.queues()[i],
                        #[trigger] snapshots[i],
                    ),
                total == stats_total(snapshots),
            decreases queues@.len() - at,
        {
            let stats = self.stats(queues[at]);
            total = total.saturating_add(stats);
            proof {
                lemma_stats_total_push(snapshots, stats);
                snapshots = snapshots.push(stats);
            }
            at = at + 1;
        }
        total
    }

    /// Re-reads the device MTU on administrative change.
    fn refresh_mtu(&mut self) -> (r: Result<u32, Error>);
}

/// Each capability is a bit of its own.
pub proof fn law_capabilities_are_single_bits(r: Capabilities)
    ensures
        call_ensures(Capabilities::none, (), r) ==> r@ == 0,
        call_ensures(Capabilities::checksum_ipv4, (), r) ==> r@ == 1,
        call_ensures(Capabilities::checksum_l4, (), r) ==> r@ == 2,
        call_ensures(Capabilities::rss, (), r) ==> r@ == 4,
        call_ensures(Capabilities::tso, (), r) ==> r@ == 8,
        call_ensures(Capabilities::gro, (), r) ==> r@ == 16,
        call_ensures(Capabilities::rx_timestamp, (), r) ==> r@ == 64,
        call_ensures(Capabilities::tx_timestamp, (), r) ==> r@ == 128,
        call_ensures(Capabilities::inline_security, (), r) ==> r@ == 256,
{
}

/// A set of capabilities contains another exactly where it has every bit of it, and a union
/// has the bits of both and no others.
pub proof fn law_capabilities_are_sets(
    left: Capabilities,
    right: Capabilities,
    both: Capabilities,
    contained: bool,
    bit: u64,
)
    requires
        call_ensures(Capabilities::union, (left, right), both),
        call_ensures(Capabilities::contains, (left, right), contained),
        bit < 64,
    ensures
        both@ & (1u64 << bit) != 0 <==> left@ & (1u64 << bit) != 0 || right@ & (1u64 << bit) != 0,
        contained ==> (right@ & (1u64 << bit) != 0 ==> left@ & (1u64 << bit) != 0),
        contained <==> left@ | right@ == left@,
{
    let (l, r, b) = (left@, right@, both@);
    assert(b & (1u64 << bit) != 0 <==> l & (1u64 << bit) != 0 || r & (1u64 << bit) != 0)
        by (bit_vector)
        requires
            b == l | r,
    ;
    assert(l & r == r ==> (r & (1u64 << bit) != 0 ==> l & (1u64 << bit) != 0)) by (bit_vector);
    assert(l & r == r <==> l | r == l) by (bit_vector);
}

/// Statistics are added counter by counter, and a counter that would overflow stays at its
/// largest value.
pub proof fn law_statistics_add_up(left: RawDeviceStats, right: RawDeviceStats, r: RawDeviceStats)
    requires
        call_ensures(RawDeviceStats::saturating_add, (left, right), r),
    ensures
        ({
            let added = |a: u64, b: u64, c: u64|
                if a + b <= u64::MAX {
                    c == a + b
                } else {
                    c == u64::MAX
                };
            &&& added(left.rx_packets, right.rx_packets, r.rx_packets)
            &&& added(left.rx_bytes, right.rx_bytes, r.rx_bytes)
            &&& added(left.tx_packets, right.tx_packets, r.tx_packets)
            &&& added(left.tx_bytes, right.tx_bytes, r.tx_bytes)
            &&& added(left.dropped_fragments, right.dropped_fragments, r.dropped_fragments)
            &&& added(left.dropped_tx_oversize, right.dropped_tx_oversize, r.dropped_tx_oversize)
            &&& added(left.dropped_rx_oversize, right.dropped_rx_oversize, r.dropped_rx_oversize)
            &&& added(left.ring_full, right.ring_full, r.ring_full)
        }),
        forall|zero: RawDeviceStats| #[trigger]
            call_ensures(RawDeviceStats::zero, (), zero) ==> zero.rx_packets == 0 && zero.rx_bytes
                == 0 && zero.tx_packets == 0 && zero.tx_bytes == 0 && zero.dropped_fragments == 0
                && zero.dropped_tx_oversize == 0 && zero.dropped_rx_oversize == 0 && zero.ring_full
                == 0,
{
    assert(Seq::<RawDeviceStats>::empty().map_values(|s: RawDeviceStats| s.rx_packets)
        =~= Seq::<u64>::empty());
    assert(Seq::<RawDeviceStats>::empty().map_values(|s: RawDeviceStats| s.rx_bytes)
        =~= Seq::<u64>::empty());
    assert(Seq::<RawDeviceStats>::empty().map_values(|s: RawDeviceStats| s.tx_packets)
        =~= Seq::<u64>::empty());
    assert(Seq::<RawDeviceStats>::empty().map_values(|s: RawDeviceStats| s.tx_bytes)
        =~= Seq::<u64>::empty());
    assert(Seq::<RawDeviceStats>::empty().map_values(|s: RawDeviceStats| s.dropped_fragments)
        =~= Seq::<u64>::empty());
    assert(Seq::<RawDeviceStats>::empty().map_values(|s: RawDeviceStats| s.dropped_tx_oversize)
        =~= Seq::<u64>::empty());
    assert(Seq::<RawDeviceStats>::empty().map_values(|s: RawDeviceStats| s.dropped_rx_oversize)
        =~= Seq::<u64>::empty());
    assert(Seq::<RawDeviceStats>::empty().map_values(|s: RawDeviceStats| s.ring_full)
        =~= Seq::<u64>::empty());
}

/// The totals of a device are those of its queues, added up one by one.
pub proof fn law_totals_are_added_up_queue_by_queue(
    snapshots: Seq<RawDeviceStats>,
    snapshot: RawDeviceStats,
    r: RawDeviceStats,
)
    requires
        call_ensures(RawDeviceStats::saturating_add, (stats_total(snapshots), snapshot), r),
    ensures
        stats_total(snapshots.push(snapshot)) == r,
        stats_total(Seq::<RawDeviceStats>::empty()).rx_packets == 0,
        stats_total(Seq::<RawDeviceStats>::empty()).tx_packets == 0,
{
    lemma_stats_total_push(snapshots, snapshot);
    assert(Seq::<RawDeviceStats>::empty().map_values(|s: RawDeviceStats| s.rx_packets)
        =~= Seq::<u64>::empty());
    assert(Seq::<RawDeviceStats>::empty().map_values(|s: RawDeviceStats| s.tx_packets)
        =~= Seq::<u64>::empty());
}

/// The totals of a device are made of one snapshot per queue.
pub proof fn law_totals_cover_every_queue<D: RawDevice>(device: &D, r: RawDeviceStats)
    requires
        call_ensures(D::total_stats, (device,), r),
    ensures
        exists|snapshots: Seq<RawDeviceStats>|
            {
                &&& r == #[trigger] stats_total(snapshots)
                &&& snapshots.len() == device.queues().len()
                &&& forall|i: int|
                    0 <= i < snapshots.len() ==> device.reports(
                        device.queues()[i],
                        #[trigger] snapshots[i],
                    )
            },
{
}

} // verus!
