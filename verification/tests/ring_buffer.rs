use spsc::RingBuffer;
use std::cell::Cell;
use std::rc::Rc;

#[test]
fn test_single_thread_send_recv() {
    let mut rb = RingBuffer::new(4);
    assert_eq!(rb.capacity(), 4); // 4 is a power of 2

    rb.send("hello").unwrap();
    rb.send("world").unwrap();

    assert_eq!(rb.len(), 2);

    assert_eq!(rb.recv(), Some("hello"));
    assert_eq!(rb.recv(), Some("world"));
    assert_eq!(rb.recv(), None);
    assert_eq!(rb.len(), 0);
}

#[test]
fn test_full_and_empty() {
    let mut rb = RingBuffer::new(2);
    assert_eq!(rb.capacity(), 2);

    rb.send(1).unwrap();
    rb.send(2).unwrap();

    // Buffer is full
    assert_eq!(rb.send(3), Err(3));
    assert_eq!(rb.len(), 2);

    // Receive one
    assert_eq!(rb.recv(), Some(1));
    assert_eq!(rb.len(), 1);

    // Now we can send again
    rb.send(3).unwrap();
    assert_eq!(rb.len(), 2);

    assert_eq!(rb.recv(), Some(2));
    assert_eq!(rb.recv(), Some(3));
    assert_eq!(rb.recv(), None);
    assert_eq!(rb.len(), 0);
}

// A simple type to track drops.
#[derive(Debug)]
struct Dropper {
    counter: Rc<Cell<usize>>,
}

impl Drop for Dropper {
    fn drop(&mut self) {
        self.counter.set(self.counter.get() + 1);
    }
}

#[test]
fn test_drop_cleanup() {
    let count = Rc::new(Cell::new(0usize));

    {
        let mut rb = RingBuffer::new(8);
        rb.send(Dropper { counter: count.clone() }).unwrap();
        rb.send(Dropper { counter: count.clone() }).unwrap();
        rb.send(Dropper { counter: count.clone() }).unwrap();

        // Receive one; drop it immediately by ending its scope.
        {
            let _d = rb.recv().unwrap();
        }

        // At this point, 1 should be dropped.
        assert_eq!(count.get(), 1);

        // Two items are still in the buffer when `rb` goes out of scope.
    }

    // Dropping the buffer destroys the remaining 2 items, exactly once each.
    assert_eq!(count.get(), 3);
}

#[test]
fn test_capacity_rounds_up_to_power_of_two() {
    assert_eq!(RingBuffer::<u8>::new(0).capacity(), 1);
    assert_eq!(RingBuffer::<u8>::new(1).capacity(), 1);
    assert_eq!(RingBuffer::<u8>::new(2).capacity(), 2);
    assert_eq!(RingBuffer::<u8>::new(3).capacity(), 4);
    assert_eq!(RingBuffer::<u8>::new(5).capacity(), 8);
    assert_eq!(RingBuffer::<u8>::new(1000).capacity(), 1024);
    assert_eq!(RingBuffer::<u8>::new(1024).capacity(), 1024);
}

#[test]
fn test_full_boundary_returns_item() {
    let mut rb = RingBuffer::new(4);
    for i in 0..4 {
        assert!(rb.send(i).is_ok());
    }
    // After exactly `capacity` sends, the next send fails and hands the
    // item back unchanged.
    assert_eq!(rb.send(99), Err(99));
    // After exactly one receive, exactly one more send succeeds.
    assert_eq!(rb.recv(), Some(0));
    assert!(rb.send(99).is_ok());
    assert_eq!(rb.send(100), Err(100));
}

#[test]
fn test_empty_boundary() {
    let mut rb: RingBuffer<u32> = RingBuffer::new(4);
    // A fresh buffer yields nothing, without blocking.
    assert_eq!(rb.recv(), None);
    rb.send(7).unwrap();
    assert_eq!(rb.recv(), Some(7));
    // A fully drained buffer yields nothing again.
    assert_eq!(rb.recv(), None);
    assert!(rb.is_empty());
}

#[test]
fn test_sequential_stress_in_order() {
    // One producer role and one consumer role taking turns through a small
    // buffer in a long steady state: every value arrives exactly once, in
    // order, and full/empty detection never drifts.
    let mut rb: RingBuffer<u64> = RingBuffer::new(1024);
    let num_items: u64 = 1_000_000;
    let mut next_send: u64 = 0;
    let mut next_expected: u64 = 0;
    while next_expected < num_items {
        while next_send < num_items && rb.send(next_send).is_ok() {
            next_send += 1;
        }
        while let Some(item) = rb.recv() {
            assert_eq!(item, next_expected);
            next_expected += 1;
        }
    }
    assert!(rb.is_empty());
}
