//! Thread placement.

use fast_socket_rs::affinity::{pin_current_thread_to_affinity, pin_current_thread_to_cpu, PinError};
use fast_socket_rs::{PinOutcome, QueueAffinity};

#[test]
fn any_affinity_is_a_no_op() {
    let outcome = pin_current_thread_to_affinity(QueueAffinity::Any, |_cpus| {
        panic!("no hint asks for no placement")
    });
    assert_eq!(outcome.unwrap(), PinOutcome::NoHint);
}

#[test]
fn core_affinity_pins_current_thread() {
    let mut asked = Vec::new();
    let outcome = pin_current_thread_to_affinity(QueueAffinity::Core(0), |cpus| {
        asked = cpus;
        Ok(())
    });
    assert_eq!(
        outcome.unwrap(),
        PinOutcome::Pinned(QueueAffinity::Core(0))
    );
    assert_eq!(asked, [0]);
}

#[test]
fn empty_mask_is_rejected() {
    assert!(pin_current_thread_to_affinity(QueueAffinity::Mask(0), |_cpus| Ok(())).is_err());
    assert_eq!(
        pin_current_thread_to_affinity(QueueAffinity::Mask(0), |_cpus| Ok(())),
        Err(PinError::EmptyMask)
    );
}

#[test]
fn a_mask_asks_for_the_cpus_of_its_bits() {
    let mut asked = Vec::new();
    let outcome = pin_current_thread_to_affinity(QueueAffinity::Mask(0b1010_0001), |cpus| {
        asked = cpus;
        Ok(())
    });
    assert!(outcome.is_ok());
    assert_eq!(asked, [0, 5, 7]);
}

#[test]
fn a_cpu_beyond_the_set_is_rejected() {
    assert_eq!(
        pin_current_thread_to_cpu(1024, |_cpus| Ok(())),
        Err(PinError::CpuOutOfRange(1024))
    );
    assert_eq!(pin_current_thread_to_cpu(1023, |_cpus| Ok(())), Ok(()));
}

#[test]
fn a_refused_placement_is_reported() {
    assert_eq!(
        pin_current_thread_to_cpu(3, |_cpus| Err(PinError::Os(22))),
        Err(PinError::Os(22))
    );
}

#[test]
fn nothing_is_requested_beyond_the_cpu_set() {
    let outcome = pin_current_thread_to_cpu(5000, |_cpus| panic!("nothing was to be requested"));
    assert_eq!(outcome, Err(PinError::CpuOutOfRange(5000)));
}
