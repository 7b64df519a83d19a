use spsc::channel::{Channel, RecvStep, SendStep};

#[test]
fn test_disconnection() {
    let mut ch: Channel<i32> = Channel::new(4);
    ch.try_send(1).unwrap();
    ch.try_send(2).unwrap();

    // Drop the sender side.
    ch.drop_sender();

    // The receiver drains the buffer before observing disconnection.
    assert_eq!(ch.try_recv(), Some(1));
    assert_eq!(ch.try_recv(), Some(2));

    // Now that the buffer is empty and the sender is gone, a receive
    // observes disconnection.
    assert!(matches!(ch.recv_step(), RecvStep::Disconnected));
}

#[test]
fn test_disconnected_is_permanent() {
    let mut ch: Channel<u8> = Channel::new(2);
    ch.drop_sender();
    assert!(matches!(ch.recv_step(), RecvStep::Disconnected));
    // Every subsequent receive observes the same, without blocking.
    assert!(matches!(ch.recv_step(), RecvStep::Disconnected));
    assert!(matches!(ch.recv_step(), RecvStep::Disconnected));
}

#[test]
fn test_recv_on_empty_connected_would_block() {
    let mut ch: Channel<u8> = Channel::new(2);
    // Non-blocking receive yields nothing immediately.
    assert_eq!(ch.try_recv(), None);
    // A blocking receive would have to wait while the sender is alive.
    assert!(matches!(ch.recv_step(), RecvStep::WouldBlock));
}

#[test]
fn test_try_send_full_returns_item() {
    let mut ch: Channel<u32> = Channel::new(1);
    assert!(ch.try_send(10).is_ok());
    assert_eq!(ch.try_send(11), Err(11));
    assert_eq!(ch.try_recv(), Some(10));
    assert!(ch.try_send(11).is_ok());
}

#[test]
fn test_send_step_would_block_on_full() {
    let mut ch: Channel<u32> = Channel::new(1);
    assert!(matches!(ch.send_step(5), SendStep::Sent));
    // A blocking send against a full buffer keeps the item and waits.
    match ch.send_step(6) {
        SendStep::WouldBlock(item) => assert_eq!(item, 6),
        SendStep::Sent => panic!("send into a full channel must not succeed"),
    }
    assert_eq!(ch.try_recv(), Some(5));
    assert!(matches!(ch.send_step(6), SendStep::Sent));
    assert_eq!(ch.try_recv(), Some(6));
}

#[test]
fn test_channel_fifo_order() {
    let mut ch: Channel<u32> = Channel::new(8);
    for i in 0..8 {
        assert!(ch.try_send(i).is_ok());
    }
    for i in 0..8 {
        assert_eq!(ch.try_recv(), Some(i));
    }
    assert_eq!(ch.try_recv(), None);
}

#[test]
fn test_channel_capacity_rounds_up() {
    let mut ch: Channel<u8> = Channel::new(0);
    // Capacity 0 realizes capacity 1: one item fits, a second does not.
    assert!(ch.try_send(1).is_ok());
    assert_eq!(ch.try_send(2), Err(2));
}
