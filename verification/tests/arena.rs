use frontend_core::arena::Arena;

#[test]
fn test_basic_allocation() {
    let mut arena = Arena::new(4);

    let id1 = arena.allocate(42);
    let id2 = arena.allocate(100);

    assert_eq!(*arena.get(id1), 42);
    assert_eq!(*arena.get(id2), 100);
    assert_eq!(arena.len(), 2);
}

#[test]
fn test_mutation() {
    let mut arena = Arena::new(4);
    let id1 = arena.allocate(10);

    *arena.get_mut(id1) = 20;
    assert_eq!(*arena.get(id1), 20);
}

#[test]
fn test_chunking() {
    let mut arena = Arena::new(2);

    let id1 = arena.allocate(1);
    let id2 = arena.allocate(2);
    let id3 = arena.allocate(3); // Should trigger new chunk

    assert_eq!(*arena.get(id1), 1);
    assert_eq!(*arena.get(id2), 2);
    assert_eq!(*arena.get(id3), 3);
    assert_eq!(arena.sealed_chunk_count(), 1);
    assert_eq!(arena.len(), 3);
}

#[test]
fn test_iterator() {
    let mut arena = Arena::new(4);
    arena.allocate(1);
    arena.allocate(2);
    arena.allocate(3);

    let sum: i32 = arena.iter_ids().into_iter().map(|id| *arena.get(id)).sum();
    assert_eq!(sum, 6);
}

#[test]
fn test_get_after_allocate_returns_item() {
    // Chunk size 1: every allocation seals a chunk at once.
    let mut arena = Arena::new(1);
    for v in 0..20 {
        let id = arena.allocate(v * 7);
        assert_eq!(*arena.get(id), v * 7);
    }
}

#[test]
fn test_len_counts_allocations() {
    for chunk_size in [1usize, 2, 3, 5, 8] {
        let mut arena = Arena::new(chunk_size);
        assert!(arena.is_empty());
        for n in 0..25u32 {
            assert_eq!(arena.len(), n as usize);
            arena.allocate(n);
        }
        assert_eq!(arena.len(), 25);
        assert!(!arena.is_empty());
    }
}

#[test]
fn test_iter_ids_yields_dense_handles_in_order() {
    let mut arena = Arena::new(3);
    for n in 0..10 {
        arena.allocate(n);
    }
    let ids = arena.iter_ids();
    assert_eq!(ids.len(), 10);
    for (expect, id) in ids.iter().enumerate() {
        assert_eq!(id.index(), expect);
    }
}

#[test]
fn test_handles_stable_across_growth() {
    let mut arena = Arena::new(2);
    let early = arena.allocate(String::from("first"));
    for n in 0..50 {
        arena.allocate(format!("later-{}", n));
    }
    assert_eq!(arena.get(early), "first");
}

#[test]
fn test_get_mut_changes_only_its_slot() {
    let mut arena = Arena::new(2);
    let a = arena.allocate(1);
    let b = arena.allocate(2);
    let c = arena.allocate(3);
    *arena.get_mut(b) = 99;
    assert_eq!(*arena.get(a), 1);
    assert_eq!(*arena.get(b), 99);
    assert_eq!(*arena.get(c), 3);
}
