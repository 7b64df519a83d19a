use spsc::arena_allocator::Arena;

#[test]
fn test_alloc_and_reset() {
    // Small arena: 1KB. Place two 24-byte, 8-aligned records — the shape of
    // a (u64, f64, u32) trade event — then reset and place a u64.
    let mut arena = Arena::new(1024);

    let first = arena.alloc_bytes(24, 8).unwrap();
    assert_eq!(first, 0);

    let second = arena.alloc_bytes(24, 8).unwrap();
    assert_eq!(second, 24);
    assert_eq!(arena.used_bytes(), 48);

    // Reset the arena: allocating again starts from 0.
    arena.reset();
    assert_eq!(arena.used_bytes(), 0);

    let third = arena.alloc_bytes(8, 8).unwrap();
    assert_eq!(third, 0);
}

#[test]
fn test_alloc_exhausted() {
    let mut arena = Arena::new(16);
    assert_eq!(arena.alloc_bytes(8, 8), Some(0));
    assert_eq!(arena.alloc_bytes(8, 8), Some(8)); // total 16
    assert_eq!(arena.alloc_bytes(1, 1), None); // 1 more byte: out of space
    // A failed allocation leaves the arena unchanged.
    assert_eq!(arena.used_bytes(), 16);
}

#[test]
fn test_alignment_padding() {
    let mut arena = Arena::new(64);
    assert_eq!(arena.alloc_bytes(1, 1), Some(0));
    // Offset 1 is padded up to the next multiple of 4.
    assert_eq!(arena.alloc_bytes(4, 4), Some(4));
    assert_eq!(arena.alloc_bytes(2, 2), Some(8));
    // Offset 10 is padded up to the next multiple of 8.
    assert_eq!(arena.alloc_bytes(8, 8), Some(16));
    assert_eq!(arena.used_bytes(), 24);
    assert_eq!(arena.capacity(), 64);
}
