//! Texts: link-layer addresses and error messages.

use fast_socket_rs::{DeviceError, DeviceErrorKind, Error, LinkAddr, LinkAddrParseError, SendError};

#[test]
fn link_addresses_round_trip_through_text() {
    let addr = LinkAddr::new([0x02, 0x00, 0x5e, 0x10, 0xab, 0xff]);
    assert_eq!(addr.text(), "02:00:5e:10:ab:ff");
    assert_eq!(LinkAddr::parse(&addr.text()), Ok(addr));
    assert_eq!("02:00:5E:10:AB:FF".parse(), Ok(addr));
    assert_eq!(addr.octets(), [0x02, 0x00, 0x5e, 0x10, 0xab, 0xff]);
}

#[test]
fn malformed_link_addresses_are_refused() {
    let count = Err(LinkAddrParseError::WrongOctetCount);
    let octet = Err(LinkAddrParseError::InvalidOctet);
    assert_eq!(LinkAddr::parse("02:00:5e:10:ab"), count);
    assert_eq!(LinkAddr::parse("02:00:5e:10:ab:ff:00"), count);
    assert_eq!(LinkAddr::parse("02:00:5e:10:ab:fg"), octet);
    assert_eq!(LinkAddr::parse("2:00:5e:10:ab:ff"), octet);
    assert_eq!(LinkAddr::parse("002:00:5e:10:ab:ff"), octet);
}

#[test]
fn messages_are_exact() {
    assert_eq!(
        LinkAddrParseError::WrongOctetCount.message(),
        "MAC address must have six colon-separated octets"
    );
    assert_eq!(
        LinkAddrParseError::InvalidOctet.message(),
        "MAC address octet is not two hex digits"
    );
    assert_eq!(Error::WouldBlock.message(), "operation would block");
    assert_eq!(Error::InvalidPacket.message(), "packet was invalid");
    assert_eq!(Error::InvalidBatch.message(), "batch was invalid");
    assert_eq!(Error::BatchFull.message(), "receive batch is full");
    assert_eq!(Error::Truncated.message(), "packet was truncated");
    assert_eq!(Error::OversizeForMtu.message(), "packet exceeds MTU");
    assert_eq!(Error::NoEgressRoute.message(), "no usable egress route");
    assert_eq!(DeviceErrorKind::Backend.message(), "backend error");
    assert_eq!(DeviceErrorKind::DeviceRemoved.message(), "device removed");
    assert_eq!(DeviceErrorKind::FdClosed.message(), "handle closed");
    assert_eq!(DeviceErrorKind::RingCorrupt.message(), "ring corrupt");
}

#[test]
fn device_errors_name_their_source() {
    let plain = DeviceError::new(DeviceErrorKind::RingCorrupt);
    assert_eq!(plain.message(), "ring corrupt");
    assert_eq!(plain.kind(), DeviceErrorKind::RingCorrupt);
    let sourced = DeviceError::with_source(DeviceErrorKind::Backend, "bad cable".to_string());
    assert_eq!(sourced.message(), "backend error: bad cable");
    assert_eq!(
        Error::Device(sourced).message(),
        "device error: backend error: bad cable"
    );
}

#[test]
fn send_errors_name_the_accepted_prefix() {
    let error = SendError {
        accepted: 12,
        kind: Error::WouldBlock,
    };
    assert_eq!(
        error.message(),
        "send failed after accepting 12 items: operation would block"
    );
}
