//! Polling modes and waiting.

use fast_socket_rs::io::{IoError, IoErrorKind};
use fast_socket_rs::poll_mode::{after_poll, IdleWait, ParkState};
use fast_socket_rs::wait::{
    begin_wait_any_non_empty, end_wait_any_non_empty, IdleAction, Park as ParkWait,
    Spin as SpinWait, WaitQueue, WaitStrategy,
};
use fast_socket_rs::{Park, Spin, TileError, TilePollMode, TilePollModeKind};

#[test]
fn modes_know_their_wake_descriptors() {
    assert_eq!(Spin::kind(), TilePollModeKind::Spin);
    assert_eq!(Park::kind(), TilePollModeKind::Park);
    assert_eq!(Spin::wake_fd(&()), None);
    assert_eq!(Park::wake_fd(&ParkState { fd: 7 }), Some(7));
    assert_eq!(Park::on_push(&ParkState { fd: 7 }), Some(7));
    assert_eq!(Spin::on_push(&()), None);
}

#[test]
fn a_parked_worker_waits_on_lanes_and_sockets() {
    let idle = IdleWait::new(
        TilePollModeKind::Park,
        &vec![Some(3), Some(4)],
        &vec![Some(9)],
    )
    .unwrap();
    assert_eq!(idle.poll_fds(), &vec![3, 4, 9]);
    assert_eq!(idle.lane_wakes(), [3, 4]);
    assert!(idle.sleeps(true).unwrap());
    assert!(!idle.sleeps(false).unwrap());
    assert_eq!(idle.ready_lane_wakes(&vec![0, 1, 1]), [4]);
    assert_eq!(idle.ready_lane_wakes(&vec![9, 8, 1]), [3]);
}

#[test]
fn a_missing_wake_descriptor_is_an_error() {
    assert!(matches!(
        IdleWait::new(TilePollModeKind::Park, &vec![Some(3)], &vec![None]),
        Err(TileError::MissingWakeHandle)
    ));
    let nothing = IdleWait::new(TilePollModeKind::Park, &vec![], &vec![]).unwrap();
    assert!(matches!(
        nothing.sleeps(true),
        Err(TileError::MissingWakeHandle)
    ));
}

#[test]
fn a_spinning_worker_never_sleeps() {
    let idle = IdleWait::new(TilePollModeKind::Spin, &vec![None], &vec![None]).unwrap();
    assert!(idle.poll_fds().is_empty());
    assert!(!idle.sleeps(true).unwrap());
}

#[test]
fn a_failed_poll_ends_the_worker() {
    assert!(after_poll(Ok(0)).is_ok());
    let error = IoError {
        kind: IoErrorKind::Other,
        text: "bad descriptor".to_string(),
    };
    assert_eq!(
        after_poll(Err(error)).unwrap_err().message(),
        "UDP tile wait failed: bad descriptor"
    );
}

#[test]
fn a_push_wakes_a_sleeping_consumer() {
    let mut queue: WaitQueue<u32, ParkWait> = WaitQueue::new(2);
    assert_eq!(queue.push(1), Ok(false));
    queue.register_consumer();
    assert!(!queue.begin_wait());
    queue.end_wait();
    assert_eq!(queue.pop(), Some(1));
    assert!(queue.begin_wait());
    assert_eq!(queue.push(2), Ok(true));
    queue.end_wait();
    assert_eq!(queue.push(3), Ok(false));
    assert_eq!(queue.push(4), Err(4));
    assert_eq!((queue.len(), queue.capacity()), (2, 2));
    assert!(!queue.is_empty());
}

#[test]
fn waits_are_bounded() {
    assert_eq!(ParkWait::do_wait(), IdleAction::Park(50));
    assert_eq!(SpinWait::do_wait(), IdleAction::SpinLoop);
}

#[test]
fn a_consumer_waits_only_when_all_queues_are_empty() {
    let mut queues: Vec<WaitQueue<u32, ParkWait>> = vec![WaitQueue::new(1), WaitQueue::new(1)];
    for queue in queues.iter_mut() {
        queue.register_consumer();
    }
    assert!(begin_wait_any_non_empty(&mut queues));
    assert_eq!(queues[1].push(5), Ok(true));
    assert!(!begin_wait_any_non_empty(&mut queues));
    end_wait_any_non_empty(&mut queues);
    assert_eq!(queues[0].push(6), Ok(false));
}

#[test]
fn a_spinning_consumer_is_never_woken() {
    let mut queue: WaitQueue<u32, SpinWait> = WaitQueue::new(1);
    queue.register_consumer();
    assert!(queue.begin_wait());
    assert_eq!(queue.push(1), Ok(false));
}
