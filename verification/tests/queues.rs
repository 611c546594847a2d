//! Bounded queues.

use fast_socket_rs::queue::Queue;
use fast_socket_rs::ring::SpscRing;
use fast_socket_rs::spsc::spsc_pair;

#[test]
fn queue_returns_item_when_full() {
    let mut queue = Queue::<u32>::new(1);
    assert_eq!(queue.push(1), Ok(()));
    assert_eq!(queue.push(2), Err(2));
    assert_eq!(queue.pop(), Some(1));
}

#[test]
fn queue_queue_returns_item_when_full() {
    let mut queue = Queue::<u32>::new(1);
    assert_eq!(queue.push(1), Ok(()));
    assert_eq!(queue.push(2), Err(2));
    assert_eq!(queue.pop(), Some(1));
}

#[test]
fn queue_keeps_arrival_order_over_many_rounds() {
    let mut queue = Queue::<u32>::new(3);
    assert_eq!(queue.capacity(), 3);
    for round in 0..10 {
        assert!(queue.is_empty());
        for item in 0..3 {
            assert_eq!(queue.push(round * 10 + item), Ok(()));
        }
        assert_eq!(queue.len(), 3);
        assert_eq!(queue.push(1000), Err(1000));
        for item in 0..3 {
            assert_eq!(queue.pop(), Some(round * 10 + item));
        }
        assert_eq!(queue.pop(), None);
    }
}

#[test]
fn spsc_queue_returns_item_when_full() {
    let (mut producer, mut consumer) = spsc_pair(1);
    assert_eq!(producer.push(1), Ok(()));
    assert_eq!(producer.push(2), Err(2));
    assert_eq!(consumer.pop(), Some(1));
    assert_eq!(consumer.pop(), None);
}

#[test]
fn queue_spsc_queue_returns_item_when_full() {
    let (mut producer, mut consumer) = spsc_pair(1);
    assert_eq!(producer.push(1), Ok(()));
    assert_eq!(producer.push(2), Err(2));
    assert_eq!(consumer.pop(), Some(1));
    assert_eq!(consumer.pop(), None);
}

#[test]
fn spsc_queue_pops_many_into_vec() {
    let (mut producer, mut consumer) = spsc_pair(4);
    assert_eq!(producer.push(1), Ok(()));
    assert_eq!(producer.push(2), Ok(()));
    let mut out = vec![0];
    assert_eq!(consumer.pop_into(4, &mut out), 2);
    assert_eq!(out, [0, 1, 2]);
    assert_eq!(consumer.pop(), None);
}

#[test]
fn queue_spsc_queue_pops_many_into_vec() {
    let (mut producer, mut consumer) = spsc_pair(4);
    assert_eq!(producer.push(1), Ok(()));
    assert_eq!(producer.push(2), Ok(()));
    let mut out = vec![0];
    assert_eq!(consumer.pop_into(4, &mut out), 2);
    assert_eq!(out, [0, 1, 2]);
    assert_eq!(consumer.pop(), None);
}

#[test]
fn spsc_queue_pushes_many_from_vec() {
    let (mut producer, mut consumer) = spsc_pair(2);
    let mut source = vec![1, 2, 3];
    let accepted = producer.push_many_from(&mut source, |value| value * 10);
    assert_eq!(accepted, 2);
    assert_eq!(source, [3]);
    assert_eq!(consumer.pop(), Some(10));
    assert_eq!(consumer.pop(), Some(20));
    assert_eq!(consumer.pop(), None);
}

#[test]
fn ring_wraps_around_its_buffer() {
    let mut ring = SpscRing::new(3);
    for item in 0..20 {
        assert_eq!(ring.push(item), Ok(()));
        assert_eq!(ring.push(item + 100), Ok(()));
        assert_eq!(ring.remaining_capacity(), 1);
        assert_eq!(ring.pop(), Some(item));
        assert_eq!(ring.pop(), Some(item + 100));
        assert!(ring.is_empty());
    }
    assert_eq!(ring.capacity(), 3);
    assert_eq!(SpscRing::<u8>::new(0).capacity(), 1);
}

#[test]
fn both_ends_see_one_queue() {
    let (mut producer, mut consumer) = spsc_pair(3);
    assert!(consumer.is_empty());
    assert_eq!(producer.push(5), Ok(()));
    assert_eq!(producer.len(), 1);
    assert_eq!(producer.remaining_capacity(), 2);
    assert!(!consumer.is_empty());
    assert_eq!(consumer.pop(), Some(5));
    assert_eq!(producer.len(), 0);
}
