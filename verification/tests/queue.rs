use signalr_rs::protocol::json::JsonValue;
use signalr_rs::protocol::responses::{Messsage, StreamItemFields};
use signalr_rs::queue::BoundedQueue;

fn numbered(n: u64) -> Messsage {
    Messsage::StreamItem(StreamItemFields {
        invocation_id: None,
        item: JsonValue::Num(n),
    })
}

#[test]
fn sends_never_block_and_overflow_is_rejected() {
    // A stalled consumer: nothing is ever dequeued.  Every send returns at
    // once; once the bound is reached the queue hands the message back
    // instead of growing.
    let mut q = BoundedQueue::with_bound(2);
    assert!(q.enqueue(Messsage::Ping).is_ok());
    assert!(q.enqueue(numbered(1)).is_ok());
    assert_eq!(q.len(), 2);
    match q.enqueue(numbered(2)) {
        Err(back) => assert_eq!(back, numbered(2)),
        Ok(()) => panic!("a full queue must reject the send"),
    }
    assert_eq!(q.len(), 2);
}

#[test]
fn delivers_in_first_in_first_out_order() {
    let mut q = BoundedQueue::with_bound(8);
    assert!(q.enqueue(numbered(1)).is_ok());
    assert!(q.enqueue(numbered(2)).is_ok());
    assert!(q.enqueue(Messsage::Ping).is_ok());
    assert_eq!(q.dequeue(), Some(numbered(1)));
    assert_eq!(q.dequeue(), Some(numbered(2)));
    assert_eq!(q.dequeue(), Some(Messsage::Ping));
    assert_eq!(q.dequeue(), None);
}

#[test]
fn a_drained_queue_accepts_again() {
    let mut q = BoundedQueue::with_bound(1);
    assert!(q.enqueue(numbered(1)).is_ok());
    assert!(q.enqueue(numbered(2)).is_err());
    assert_eq!(q.dequeue(), Some(numbered(1)));
    assert!(q.enqueue(numbered(2)).is_ok());
    assert_eq!(q.dequeue(), Some(numbered(2)));
}
