//! Raw devices and identifiers.

use fast_socket_rs::{
    Capabilities, Error, HugePageSize, IfIndex, NumaNode, QueueAffinity, QueueId, RawDevice,
    RawDeviceStats, SocketId,
};

struct MockDevice {
    mtu: u32,
    queues: Vec<QueueId>,
}

impl RawDevice for MockDevice {
    fn ifindex(&self) -> IfIndex {
        IfIndex::new(3)
    }

    fn nic_queues(&self) -> &[QueueId] {
        &self.queues
    }

    fn capabilities(&self) -> Capabilities {
        Capabilities::rss() | Capabilities::checksum_l4()
    }

    fn queue_affinity(&self, _queue: QueueId) -> QueueAffinity {
        QueueAffinity::Core(5)
    }

    fn queue_numa_node(&self, _queue: QueueId) -> Option<NumaNode> {
        Some(NumaNode::new(0))
    }

    fn stats(&self, _queue: QueueId) -> RawDeviceStats {
        RawDeviceStats {
            rx_packets: 10,
            ..RawDeviceStats::default()
        }
    }

    fn refresh_mtu(&mut self) -> Result<u32, Error> {
        Ok(self.mtu)
    }
}

#[test]
fn raw_device_side_api_exposes_capabilities_and_stats() {
    let mut device = MockDevice {
        mtu: 1500,
        queues: vec![QueueId::new(0)],
    };

    assert_eq!(device.ifindex(), IfIndex::new(3));
    assert_eq!(device.nic_queues(), &[QueueId::new(0)]);
    assert!(device.capabilities().contains(Capabilities::rss()));
    assert_eq!(
        device.queue_affinity(QueueId::new(0)),
        QueueAffinity::Core(5)
    );
    assert_eq!(device.stats(QueueId::new(0)).rx_packets, 10);
    assert_eq!(device.total_stats().rx_packets, 10);
    assert_eq!(device.refresh_mtu().unwrap(), 1500);
}

#[test]
fn totals_add_up_over_all_queues() {
    let device = MockDevice {
        mtu: 1500,
        queues: vec![QueueId::new(0), QueueId::new(1), QueueId::new(4)],
    };
    assert_eq!(device.total_stats().rx_packets, 30);
}

#[test]
fn sums_stop_at_the_largest_number() {
    let most = RawDeviceStats {
        rx_packets: u64::MAX,
        ..RawDeviceStats::default()
    };
    assert_eq!(most.saturating_add(most).rx_packets, u64::MAX);
}

#[test]
fn a_union_contains_both_sides_and_nothing_else() {
    let union = Capabilities::tso() | Capabilities::gro();
    assert!(union.contains(Capabilities::tso()));
    assert!(union.contains(Capabilities::gro()));
    assert!(!union.contains(Capabilities::rss()));
    assert!(union.contains(Capabilities::none()));
    assert_eq!(Capabilities::from_bits(union.bits()), union);
}

#[test]
fn identifiers_keep_their_values() {
    assert_eq!(QueueId::new(7).get(), 7);
    assert_eq!(SocketId::new(8).get(), 8);
    assert_eq!(NumaNode::new(2).get(), 2);
    assert_eq!(IfIndex::new(12).get(), 12);
    assert_eq!(IfIndex::try_new(0), None);
    assert_eq!(IfIndex::try_new(3), Some(IfIndex::new(3)));
    assert_eq!(HugePageSize::default(), HugePageSize::Default);
}

#[test]
fn capability_bits_are_stable() {
    let bits = [
        Capabilities::checksum_ipv4(),
        Capabilities::checksum_l4(),
        Capabilities::rss(),
        Capabilities::tso(),
        Capabilities::gro(),
        Capabilities::rx_timestamp(),
        Capabilities::tx_timestamp(),
        Capabilities::inline_security(),
    ]
    .map(Capabilities::bits);
    assert_eq!(bits, [1, 2, 4, 8, 16, 64, 128, 256]);
}
