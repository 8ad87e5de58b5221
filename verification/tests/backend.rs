use eddy::backend::{PeekableReceiver, RecvFailure};
use std::sync::mpsc::channel;

#[test]
fn backend_test_auth() {
    // let backend = BackendWorker::ssh("localhost:22".to_string(), Some(22), "brain".to_string());
    // let (sender, receiver) = sync_channel(10);
    // backend.spawn(Box::new(|| println!("wakup")), sender);
}

#[test]
fn peek_then_receive_gives_the_peeked_item() {
    let (tx, rx) = channel::<u32>();
    let mut r = PeekableReceiver::new(rx);
    assert!(!r.has_read());
    tx.send(7).unwrap();
    tx.send(8).unwrap();
    assert!(r.has_read());
    assert!(r.has_read());
    assert_eq!(r.try_recv(), Ok(7));
    assert_eq!(r.try_recv(), Ok(8));
    assert_eq!(r.try_recv(), Err(RecvFailure::Empty));
}

#[test]
fn a_dropped_sender_is_seen_as_disconnected() {
    let (tx, rx) = channel::<u32>();
    let mut r = PeekableReceiver::new(rx);
    drop(tx);
    assert!(r.has_read());
    assert_eq!(r.try_recv(), Err(RecvFailure::Disconnected));
}

#[test]
fn keep_polled_keeps_an_item_and_answers_true() {
    let (_tx, rx) = channel::<u32>();
    let mut r = PeekableReceiver::new(rx);
    assert!(r.keep_polled(Ok(5)));
    assert!(r.has_read());
    assert_eq!(r.try_recv(), Ok(5));
}

#[test]
fn keep_polled_keeps_nothing_of_an_empty_channel() {
    let (tx, rx) = channel::<u32>();
    let mut r = PeekableReceiver::new(rx);
    assert!(!r.keep_polled(Err(RecvFailure::Empty)));
    tx.send(3).unwrap();
    assert_eq!(r.try_recv(), Ok(3));
}

#[test]
fn keep_polled_keeps_a_gone_sender() {
    let (tx, rx) = channel::<u32>();
    let mut r = PeekableReceiver::new(rx);
    assert!(r.keep_polled(Err(RecvFailure::Disconnected)));
    tx.send(4).unwrap();
    assert_eq!(r.try_recv(), Err(RecvFailure::Disconnected));
    assert_eq!(r.try_recv(), Ok(4));
}
