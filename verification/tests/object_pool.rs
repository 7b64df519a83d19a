use spsc::object_pool::ObjectPool;

// A simple struct to test pooling. Note: T is NOT Clone.
struct Order {
    id: u64,
    #[allow(dead_code)]
    price: f64,
}

// A function to create a "blank" order for the pool.
fn new_order() -> Order {
    Order { id: 0, price: 0.0 }
}

#[test]
fn test_get_and_put() {
    let mut pool = ObjectPool::new(2, new_order);
    assert_eq!(pool.available(), 2);

    // Get an object
    let mut order1 = pool.try_get().unwrap();
    assert_eq!(pool.available(), 1);

    // Modify it
    order1.item.id = 100;

    // Get another object
    let order2 = pool.try_get().unwrap();
    assert_eq!(pool.available(), 0);

    // Pool is now empty
    assert!(pool.try_get().is_none());

    // Return order1
    pool.put(order1.item);

    // order1 is back in the pool
    assert_eq!(pool.available(), 1);

    // Get it again
    let mut order3 = pool.try_get().unwrap();
    assert_eq!(pool.available(), 0);

    // IMPORTANT: It is the *same* object, still "dirty"; reset it ourselves.
    assert_eq!(order3.item.id, 100); // It's the old object!
    order3.item.id = 0; // Reset it

    // Return the others
    pool.put(order2.item);
    pool.put(order3.item);

    assert_eq!(pool.available(), 2);
}

#[test]
fn test_new_fills_pool_with_init_values() {
    let mut pool = ObjectPool::new(3, || 7u32);
    assert_eq!(pool.available(), 3);
    let a = pool.try_get().unwrap();
    assert_eq!(a.item, 7);
    assert_eq!(pool.available(), 2);
}

#[test]
fn test_try_get_empty_pool() {
    let mut pool: ObjectPool<u8> = ObjectPool::new(0, || 0u8);
    assert_eq!(pool.available(), 0);
    assert!(pool.try_get().is_none());
}

#[test]
fn test_lifo_hand_out_order() {
    let mut pool: ObjectPool<u32> = ObjectPool::new(0, || 0u32);
    pool.put(1);
    pool.put(2);
    pool.put(3);
    // The most recently returned object goes out first.
    assert_eq!(pool.try_get().unwrap().item, 3);
    assert_eq!(pool.try_get().unwrap().item, 2);
    assert_eq!(pool.try_get().unwrap().item, 1);
}
