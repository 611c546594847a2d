//! Port filters.

use fast_socket_rs::xdp_filter::{
    fast_socket_xdp, fast_socket_xdp_port_range, packet_udp_destination_port, Aligned, FilterMaps,
    Truncated, DROP_REASON_REDIRECT_ERROR, DROP_REASON_XSKMAP_MISS, XDP_DROP, XDP_PASS,
    XDP_REDIRECT,
};

fn ipv4_udp(port: u16) -> Vec<u8> {
    let mut packet = vec![0u8; 28];
    packet[0] = 0x45;
    packet[9] = 17;
    packet[22..24].copy_from_slice(&port.to_be_bytes());
    packet
}

fn frame(tags: &[u8], packet: &[u8]) -> Vec<u8> {
    let mut frame = vec![0u8; 12];
    frame.extend_from_slice(tags);
    frame.extend_from_slice(packet);
    frame
}

fn plain(port: u16) -> Vec<u8> {
    frame(&[0x08, 0x00], &ipv4_udp(port))
}

#[test]
fn the_port_is_found_behind_vlan_tags() {
    let packet = ipv4_udp(4433);
    let tagged = [0x81, 0x00, 0, 5, 0x08, 0x00];
    let double = [0x88, 0xa8, 0, 5, 0x81, 0x00, 0, 6, 0x08, 0x00];
    let outer_only = [0x88, 0xa8, 0, 5, 0x08, 0x00];
    for tags in [&[0x08u8, 0x00][..], &tagged, &double, &outer_only] {
        assert_eq!(
            packet_udp_destination_port(&frame(tags, &packet)),
            Ok(Some(4433))
        );
    }
    let stacked = [0x88, 0xa8, 0, 5, 0x88, 0xa8, 0, 6, 0x08, 0x00];
    assert_eq!(
        packet_udp_destination_port(&frame(&stacked, &packet)),
        Ok(None)
    );
}

#[test]
fn other_traffic_has_no_port() {
    assert_eq!(
        packet_udp_destination_port(&frame(&[0x86, 0xdd], &[0; 40])),
        Ok(None)
    );
    let mut tcp = ipv4_udp(1);
    tcp[9] = 6;
    assert_eq!(
        packet_udp_destination_port(&frame(&[8, 0], &tcp)),
        Ok(None)
    );
    let mut fragment = ipv4_udp(1);
    fragment[6] = 0x20;
    assert_eq!(
        packet_udp_destination_port(&frame(&[8, 0], &fragment)),
        Ok(None)
    );
    let mut unfragmented = ipv4_udp(1);
    unfragmented[6] = 0x40;
    assert_eq!(
        packet_udp_destination_port(&frame(&[8, 0], &unfragmented)),
        Ok(Some(1))
    );
    assert_eq!(packet_udp_destination_port(&[0; 13]), Err(Truncated));
    assert_eq!(
        packet_udp_destination_port(&frame(&[8, 0], &ipv4_udp(1)[..27])),
        Err(Truncated)
    );
}

#[test]
fn a_fresh_program_passes_everything() {
    let mut maps = FilterMaps::new();
    let never = || panic!("nothing is redirected");
    assert_eq!(fast_socket_xdp(&plain(0), &mut maps, never), XDP_PASS);
    assert_eq!(
        fast_socket_xdp_port_range(&plain(0), &mut maps, never),
        XDP_PASS
    );
    assert_eq!(maps.drop_counters, [0, 0]);
}

#[test]
fn bound_ports_are_redirected() {
    let mut maps = FilterMaps::new();
    maps.bound_ports[4433] = 1;
    assert_eq!(
        fast_socket_xdp(&plain(4433), &mut maps, || Ok(XDP_REDIRECT)),
        XDP_PASS
    );
    maps.bound_port_count[0] = 1;
    assert_eq!(
        fast_socket_xdp(&plain(4433), &mut maps, || Ok(XDP_REDIRECT)),
        XDP_REDIRECT
    );
    assert_eq!(
        fast_socket_xdp(&plain(4434), &mut maps, || Ok(XDP_REDIRECT)),
        XDP_PASS
    );
}

#[test]
fn port_ranges_include_both_ends() {
    let mut maps = FilterMaps::new();
    maps.bound_port_range = vec![100, 200];
    for (port, action) in [
        (99, XDP_PASS),
        (100, XDP_REDIRECT),
        (200, XDP_REDIRECT),
        (201, XDP_PASS),
    ] {
        assert_eq!(
            fast_socket_xdp_port_range(&plain(port), &mut maps, || Ok(XDP_REDIRECT)),
            action
        );
    }
    maps.bound_port_range = vec![200, 100];
    assert_eq!(
        fast_socket_xdp_port_range(&plain(150), &mut maps, || Ok(XDP_REDIRECT)),
        XDP_PASS
    );
}

#[test]
fn failed_redirects_are_dropped_and_counted() {
    let mut maps = FilterMaps::new();
    maps.bound_port_range = vec![1, 9];
    assert_eq!(
        fast_socket_xdp_port_range(&plain(5), &mut maps, || Err(0)),
        XDP_DROP
    );
    assert_eq!(
        fast_socket_xdp_port_range(&plain(5), &mut maps, || Err(3)),
        XDP_DROP
    );
    assert_eq!(
        fast_socket_xdp_port_range(&plain(5), &mut maps, || Err(0)),
        XDP_DROP
    );
    assert_eq!(maps.drop_counters[DROP_REASON_XSKMAP_MISS as usize], 2);
    assert_eq!(maps.drop_counters[DROP_REASON_REDIRECT_ERROR as usize], 1);
}

#[test]
fn both_filters_agree_on_a_range() {
    let mut maps = FilterMaps::new();
    maps.bound_port_range = vec![10, 20];
    for port in 10..=20 {
        maps.bound_ports[port] = 1;
    }
    maps.bound_port_count[0] = 11;
    for port in 0..40 {
        assert_eq!(
            fast_socket_xdp(&plain(port), &mut maps, || Ok(XDP_REDIRECT)),
            fast_socket_xdp_port_range(&plain(port), &mut maps, || Ok(XDP_REDIRECT))
        );
    }
}

#[test]
fn aligned_bytes_are_reachable() {
    assert_eq!(Aligned([1u8, 2]).get(), &[1, 2]);
}
