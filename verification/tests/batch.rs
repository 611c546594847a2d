//! Transmit slots and receive batches.

use fast_socket_rs::{Error, RecvBatch, SendError, TxSlot};

fn send_with_rejection(batch: &mut [TxSlot<u32>]) -> Result<usize, SendError> {
    let mut accepted = 0;
    for slot in batch.iter_mut() {
        match slot.as_ref() {
            Some(value) if *value == 99 => {
                return Err(SendError {
                    accepted,
                    kind: Error::OversizeForMtu,
                });
            }
            Some(_) => {
                let _ = slot.take();
                accepted += 1;
            }
            None => {
                return Err(SendError {
                    accepted,
                    kind: Error::InvalidBatch,
                });
            }
        }
    }
    Ok(accepted)
}

#[test]
fn send_error_leaves_rejected_slot_and_tail_untouched() {
    let mut batch = [
        TxSlot::Ready(1u32),
        TxSlot::Ready(2),
        TxSlot::Ready(99),
        TxSlot::Ready(4),
    ];

    let err = send_with_rejection(&mut batch).expect_err("third slot must be rejected");
    assert_eq!(err.accepted, 2);
    assert!(matches!(err.kind, Error::OversizeForMtu));

    assert!(batch[0].is_taken());
    assert!(batch[1].is_taken());
    assert_eq!(batch[2].as_ref(), Some(&99));
    assert_eq!(batch[3].as_ref(), Some(&4));
}

#[test]
fn send_short_accept_leaves_tail_untouched() {
    let mut batch = [TxSlot::Ready(1u32), TxSlot::Ready(2), TxSlot::Ready(3)];
    let _ = batch[0].take();
    let accepted = 1;

    assert!(batch[0].is_taken());
    assert_eq!(batch[1].as_ref(), Some(&2));
    assert_eq!(batch[2].as_ref(), Some(&3));
    assert_eq!(accepted, 1);
}

#[test]
fn a_taken_slot_stays_taken() {
    let mut slot = TxSlot::Ready(7u32);
    assert!(slot.is_ready());
    assert_eq!(slot.take(), Some(7));
    assert_eq!(slot.take(), None);
    assert!(slot.is_taken());
    assert!(slot.as_mut().is_none());
}

#[test]
fn a_full_receive_batch_returns_the_item() {
    let mut batch = RecvBatch::with_capacity(2);
    assert_eq!(batch.push(1), Ok(()));
    assert_eq!(batch.remaining(), 1);
    assert_eq!(batch.push(2), Ok(()));
    assert_eq!(batch.push(3), Err(3));
    assert_eq!(batch.as_slice(), [1, 2]);
    assert_eq!(batch.drain(), [1, 2]);
    assert!(batch.is_empty());
    assert_eq!(batch.capacity(), 2);
}
