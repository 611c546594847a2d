//! Building blocks of traffic generators.

use fast_socket_rs::bench::{
    attach_xdp_programs_for_slots, dynamic_source_port, forced_exit, incoming_cpus,
    interface_argument, interface_selector, parse_duration_ms, parse_number, payload,
    shutdown_requested, thread_limit, write_sequence, xdp_program_for_slot, InterfaceSelector,
    InterfaceSelectorError, ParseNumberError, Progress, RunLimit,
};
use fast_socket_rs::{IfIndex, TimeSpan};

#[test]
fn limits_stop_a_loop() {
    let unlimited = RunLimit::default();
    assert!(unlimited.keep_running(u64::MAX, TimeSpan::new(u64::MAX, 0)));
    let counted = RunLimit {
        count: Some(3),
        duration: None,
    };
    assert!(counted.keep_running(2, TimeSpan::new(0, 0)));
    assert!(!counted.keep_running(3, TimeSpan::new(0, 0)));
    let timed = RunLimit {
        count: None,
        duration: Some(TimeSpan::from_millis(10)),
    };
    assert!(timed.keep_running(0, TimeSpan::new(0, 9_999_999)));
    assert!(!timed.keep_running(0, TimeSpan::new(0, 10_000_000)));
    assert!(counted.requests_more(0, 2, TimeSpan::new(0, 0)));
    assert!(!counted.requests_more(0, 3, TimeSpan::new(0, 0)));
    assert!(!unlimited.requests_more(0, 64, TimeSpan::new(0, 0)));
}

#[test]
fn threads_share_the_packets() {
    let limit = RunLimit {
        count: Some(10),
        duration: None,
    };
    let shares: Vec<u64> = (0..4)
        .map(|index| thread_limit(limit, index, 4).count.unwrap())
        .collect();
    assert_eq!(shares, [3, 3, 2, 2]);
    assert_eq!(shares.iter().sum::<u64>(), 10);
    assert_eq!(thread_limit(RunLimit::default(), 0, 4).count, None);
}

#[test]
fn numbers_are_read_like_the_standard_library_does() {
    assert_eq!(parse_number("0"), Ok(0));
    assert_eq!(parse_number("+17"), Ok(17));
    assert_eq!(parse_number("007"), Ok(7));
    assert_eq!(parse_number("18446744073709551615"), Ok(u64::MAX));
    assert_eq!(
        parse_number("18446744073709551616"),
        Err(ParseNumberError::Overflow)
    );
    assert_eq!(parse_number(""), Err(ParseNumberError::Empty));
    assert_eq!(parse_number("+"), Err(ParseNumberError::InvalidDigit));
    assert_eq!(parse_number("-1"), Err(ParseNumberError::InvalidDigit));
    assert_eq!(parse_number("1 "), Err(ParseNumberError::InvalidDigit));
    assert_eq!(
        parse_number("99999999999999999999x"),
        Err(ParseNumberError::Overflow)
    );
    for text in ["12", "+", "", "x", "18446744073709551616", "++1", "9"] {
        assert_eq!(parse_number(text).ok(), text.parse::<u64>().ok());
    }
}

#[test]
fn durations_are_milliseconds() {
    assert_eq!(parse_duration_ms("1500"), Ok(TimeSpan::new(1, 500_000_000)));
    assert_eq!(parse_duration_ms("x"), Err(ParseNumberError::InvalidDigit));
}

#[test]
fn progress_is_reported_once_a_second() {
    let mut progress = Progress::new();
    let reads = (0..4096).filter(|_| progress.tick()).count();
    assert_eq!(reads, 4);
    assert!(progress.sample(TimeSpan::new(0, 999_999_999), 50).is_none());
    let report = progress.sample(TimeSpan::new(1, 500_000_000), 60).unwrap();
    assert_eq!(report.packets, 60);
    assert_eq!(report.window, TimeSpan::new(1, 500_000_000));
    assert!(progress.sample(TimeSpan::new(2, 400_000_000), 80).is_none());
    let report = progress.sample(TimeSpan::new(2, 500_000_000), 90).unwrap();
    assert_eq!(report.packets, 30);
    assert_eq!(report.window, TimeSpan::new(1, 0));
}

#[test]
fn payloads_count_up() {
    let bytes = payload(300);
    assert_eq!(bytes.len(), 300);
    assert_eq!(&bytes[..3], &[0, 1, 2]);
    assert_eq!(&bytes[254..258], &[254, 255, 0, 1]);
}

#[test]
fn sequence_numbers_are_big_endian() {
    let mut bytes = payload(10);
    write_sequence(&mut bytes, 0x0102_0304_0506_0708);
    assert_eq!(bytes, [1, 2, 3, 4, 5, 6, 7, 8, 8, 9]);
    let mut short = payload(3);
    write_sequence(&mut short, 0x0102_0304_0506_0708);
    assert_eq!(short, [1, 2, 3]);
    write_sequence(&mut bytes, u64::MAX);
    assert_eq!(u64::from_be_bytes(bytes[..8].try_into().unwrap()), u64::MAX);
}

#[test]
fn source_ports_are_dynamic() {
    assert_eq!(dynamic_source_port(0), 49152);
    assert_eq!(dynamic_source_port(16383), 65535);
    assert_eq!(dynamic_source_port(16384), 49152);
}

#[test]
fn the_third_signal_forces_the_exit() {
    assert!(!shutdown_requested(0));
    assert!(shutdown_requested(1));
    assert_eq!(forced_exit(0, 2), None);
    assert_eq!(forced_exit(1, 2), None);
    assert_eq!(forced_exit(2, 2), Some(130));
    assert_eq!(forced_exit(3, 15), Some(143));
}

#[test]
fn one_interface_is_selected() {
    assert_eq!(
        interface_selector(Some(3), None),
        Ok(InterfaceSelector::Index(IfIndex::new(3)))
    );
    assert_eq!(
        interface_selector(None, Some("eth0".to_string())),
        Ok(InterfaceSelector::Name("eth0".to_string()))
    );
    assert_eq!(
        interface_selector(Some(3), Some("eth0".to_string()))
            .unwrap_err()
            .message(),
        "use only one of --ifindex or --iface"
    );
    assert_eq!(
        interface_selector(None, None),
        Err(InterfaceSelectorError::Neither)
    );
    assert_eq!(
        InterfaceSelectorError::Neither.message(),
        "missing --ifindex N or --iface NAME"
    );
}

#[test]
fn every_interface_gets_one_program() {
    let slots = vec![
        IfIndex::new(4),
        IfIndex::new(4),
        IfIndex::new(2),
        IfIndex::new(4),
        IfIndex::new(9),
        IfIndex::new(2),
    ];
    let programs = attach_xdp_programs_for_slots(&slots);
    assert_eq!(programs, [0, 2, 4]);
    let serving: Vec<Option<usize>> = slots
        .iter()
        .map(|slot| xdp_program_for_slot(&slots, &programs, *slot))
        .collect();
    assert!(serving.iter().all(Option::is_some));
    assert_eq!(serving[0], Some(0));
    assert_eq!(serving[2], Some(1));
    assert_eq!(serving[4], Some(2));
    assert_eq!(
        xdp_program_for_slot(&slots, &programs, IfIndex::new(77)),
        None
    );
    assert!(attach_xdp_programs_for_slots(&vec![]).is_empty());
}

#[test]
fn interface_arguments_are_numbers_or_names() {
    assert_eq!(
        interface_argument("7".to_string()),
        InterfaceSelector::Index(IfIndex::new(7))
    );
    assert_eq!(
        interface_argument("eth0".to_string()),
        InterfaceSelector::Name("eth0".to_string())
    );
    assert_eq!(
        interface_argument("4294967296".to_string()),
        InterfaceSelector::Name("4294967296".to_string())
    );
}

#[test]
fn incoming_cpus_are_distinct_and_sorted() {
    assert_eq!(incoming_cpus(&vec![5, 1, 5, 3, 1]), Some(vec![1, 3, 5]));
    assert_eq!(incoming_cpus(&vec![2]), Some(vec![2]));
    assert_eq!(incoming_cpus(&vec![]), None);
}
