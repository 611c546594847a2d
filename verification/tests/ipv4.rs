//! IPv4/UDP datagrams.

use fast_socket_rs::ipv4::{ipv4_header_checksum, parse_ipv4_udp, reflect_ipv4_udp, Ipv4UdpPacket};
use fast_socket_rs::Ipv4Addr;

fn datagram() -> Vec<u8> {
    let mut packet = vec![0u8; 32];
    packet[0] = 0x45;
    packet[2..4].copy_from_slice(&32u16.to_be_bytes());
    packet[8] = 64;
    packet[9] = 17;
    packet[12..16].copy_from_slice(&[192, 0, 2, 1]);
    packet[16..20].copy_from_slice(&[198, 51, 100, 7]);
    packet[20..22].copy_from_slice(&1111u16.to_be_bytes());
    packet[22..24].copy_from_slice(&2222u16.to_be_bytes());
    packet[24..26].copy_from_slice(&12u16.to_be_bytes());
    packet[26..28].copy_from_slice(&0xbeefu16.to_be_bytes());
    packet[28..32].copy_from_slice(b"data");
    packet
}

#[test]
fn header_fields_are_parsed() {
    assert_eq!(
        parse_ipv4_udp(&datagram()),
        Some(Ipv4UdpPacket {
            source: Ipv4Addr::new(192, 0, 2, 1),
            destination: Ipv4Addr::new(198, 51, 100, 7),
            source_port: 1111,
            destination_port: 2222,
            payload_offset: 28,
            total_len: 32,
        })
    );
}

#[test]
fn malformed_datagrams_are_refused() {
    let change = |at: usize, value: u8| {
        let mut packet = datagram();
        packet[at] = value;
        parse_ipv4_udp(&packet)
    };
    assert_eq!(parse_ipv4_udp(&datagram()[..27]), None);
    assert_eq!(change(0, 0x65), None);
    assert_eq!(change(0, 0x44), None);
    assert_eq!(change(0, 0x4f), None);
    assert_eq!(change(3, 33), None);
    assert_eq!(change(3, 27), None);
    assert_eq!(change(9, 6), None);
    assert_eq!(change(6, 0x20), None);
    assert_eq!(change(7, 1), None);
    assert_eq!(change(25, 7), None);
    assert_eq!(change(25, 13), None);
    assert!(change(6, 0x40).is_some());
}

#[test]
fn the_checksum_is_the_complement_of_the_folded_sum() {
    assert_eq!(ipv4_header_checksum(&[]), 0xffff);
    assert_eq!(ipv4_header_checksum(&[0xff, 0xff]), 0);
    assert_eq!(ipv4_header_checksum(&[0xff, 0xff, 0x00, 0x02]), 0xfffd);
    let header = [
        0x45, 0x00, 0x00, 0x73, 0x00, 0x00, 0x40, 0x00, 0x40, 0x11, 0x00, 0x00, 0xc0, 0xa8, 0x00,
        0x01, 0xc0, 0xa8, 0x00, 0xc7,
    ];
    assert_eq!(ipv4_header_checksum(&header), 0xb861);
}

#[test]
fn reflection_swaps_endpoints() {
    let mut packet = datagram();
    assert_eq!(
        reflect_ipv4_udp(&mut packet),
        Some(Ipv4Addr::new(192, 0, 2, 1))
    );
    assert_eq!(
        parse_ipv4_udp(&packet),
        Some(Ipv4UdpPacket {
            source: Ipv4Addr::new(198, 51, 100, 7),
            destination: Ipv4Addr::new(192, 0, 2, 1),
            source_port: 2222,
            destination_port: 1111,
            payload_offset: 28,
            total_len: 32,
        })
    );
    assert_eq!(&packet[26..28], &[0, 0]);
    assert_eq!(&packet[28..], b"data");
    assert_eq!(ipv4_header_checksum(&packet[..20]), 0);
}

#[test]
fn reflecting_twice_gives_a_reflected_datagram_back() {
    let mut packet = datagram();
    reflect_ipv4_udp(&mut packet).unwrap();
    let once = packet.clone();
    reflect_ipv4_udp(&mut packet).unwrap();
    assert_ne!(packet, once);
    reflect_ipv4_udp(&mut packet).unwrap();
    assert_eq!(packet, once);
}

#[test]
fn other_packets_are_not_reflected() {
    let mut packet = datagram();
    packet[9] = 6;
    let before = packet.clone();
    assert_eq!(reflect_ipv4_udp(&mut packet), None);
    assert_eq!(packet, before);
}
