//! Socket addresses as the operating system lays them out.

use fast_socket_rs::os_addr::{
    parse_pktinfo_destination, pktinfo_outcome, sockaddr_from_socketaddr, socketaddr_from_raw,
    ByteOrder, ControlMessage, EINVAL, ENOPROTOOPT, IPPROTO_IP, IP_PKTINFO,
};
use fast_socket_rs::io::{timeout_to_poll_ms, wait_outcome, IoError, IoErrorKind};
use fast_socket_rs::{Error, IpAddr, Ipv4Addr, Ipv6Addr, SocketAddr, TimeSpan, WaitOutcome};

#[test]
fn ipv4_addresses_have_the_layout_of_the_system() {
    let addr = SocketAddr::v4(Ipv4Addr::new(192, 0, 2, 1), 0x1234);
    let raw = sockaddr_from_socketaddr(&addr, ByteOrder::Little);
    assert_eq!(
        raw,
        [2, 0, 0x12, 0x34, 192, 0, 2, 1, 0, 0, 0, 0, 0, 0, 0, 0]
    );
    let raw = sockaddr_from_socketaddr(&addr, ByteOrder::Big);
    assert_eq!(&raw[..4], &[0, 2, 0x12, 0x34]);
}

#[test]
fn addresses_round_trip_in_both_byte_orders() {
    let v4 = SocketAddr::v4(Ipv4Addr::new(10, 1, 2, 3), 53);
    let v6 = SocketAddr::V6 {
        ip: Ipv6Addr { bits: 0x2001_0db8_0000_0000_0000_0000_0000_00ff },
        port: 4433,
        flowinfo: 0x0102_0304,
        scope_id: 7,
    };
    for order in [ByteOrder::Little, ByteOrder::Big] {
        for addr in [v4, v6] {
            let raw = sockaddr_from_socketaddr(&addr, order);
            assert_eq!(socketaddr_from_raw(&raw, order), Some(addr));
        }
    }
}

#[test]
fn unknown_families_and_short_addresses_are_refused() {
    assert_eq!(socketaddr_from_raw(&[1, 0, 0, 0], ByteOrder::Little), None);
    assert_eq!(socketaddr_from_raw(&[2, 0, 0, 0], ByteOrder::Little), None);
    assert_eq!(socketaddr_from_raw(&[], ByteOrder::Little), None);
}

#[test]
fn the_destination_comes_from_packet_info() {
    let message = |kind, data| ControlMessage {
        level: IPPROTO_IP,
        kind,
        data,
    };
    let info = vec![1, 0, 0, 0, 9, 9, 9, 9, 127, 0, 0, 1];
    assert_eq!(
        parse_pktinfo_destination(&vec![message(99, vec![1]), message(IP_PKTINFO, info)]),
        Some(IpAddr::V4(Ipv4Addr::new(127, 0, 0, 1)))
    );
    assert_eq!(parse_pktinfo_destination(&vec![]), None);
}

#[test]
fn packet_info_may_be_missing_for_one_family() {
    assert_eq!(pktinfo_outcome(None, Some(ENOPROTOOPT)), Ok(()));
    assert_eq!(pktinfo_outcome(Some(EINVAL), None), Ok(()));
    assert!(pktinfo_outcome(Some(1), Some(1)).is_err());
}

#[test]
fn timeouts_are_rounded_for_poll() {
    assert_eq!(timeout_to_poll_ms(None), -1);
    assert_eq!(timeout_to_poll_ms(Some(TimeSpan::new(0, 0))), 0);
    assert_eq!(timeout_to_poll_ms(Some(TimeSpan::new(0, 1))), 1);
    assert_eq!(timeout_to_poll_ms(Some(TimeSpan::from_millis(1500))), 1500);
    assert_eq!(timeout_to_poll_ms(Some(TimeSpan::new(u64::MAX, 0))), i32::MAX);
}

#[test]
fn poll_results_are_interpreted() {
    assert_eq!(wait_outcome(Ok(0)).unwrap(), WaitOutcome::Timeout);
    assert_eq!(wait_outcome(Ok(1)).unwrap(), WaitOutcome::Ready);
    let interrupted = IoError {
        kind: IoErrorKind::Interrupted,
        text: String::new(),
    };
    assert_eq!(wait_outcome(Err(interrupted)).unwrap(), WaitOutcome::Spurious);
    let failed = IoError {
        kind: IoErrorKind::Other,
        text: "broken".to_string(),
    };
    assert!(matches!(wait_outcome(Err(failed)), Err(Error::Device(_))));
}
