use ecs::generational_index::GenerationalIndexAllocator;

#[test]
fn new_allocator_is_empty() {
    let allocator = GenerationalIndexAllocator::new();
    assert_eq!(allocator.max_allocated(), 0);
    assert_eq!(allocator.live_count(), 0);
    assert!(allocator.live_at_index(0).is_none());
}

#[test]
fn indices_are_given_out_in_order() {
    let mut allocator = GenerationalIndexAllocator::new();
    let a = allocator.allocate();
    let b = allocator.allocate();
    assert_eq!(a.index(), 0);
    assert_eq!(a.generation(), 0);
    assert_eq!(b.index(), 1);
    assert_eq!(b.generation(), 0);
    assert_eq!(allocator.max_allocated(), 2);
    assert_eq!(allocator.live_count(), 2);
    assert!(allocator.is_live(a));
    assert!(allocator.is_live(b));
    assert_eq!(allocator.live_at_index(1), Some(b));
    assert_eq!(allocator.live_at_index(2), None);
}

#[test]
fn freed_index_comes_back_in_the_next_generation() {
    let mut allocator = GenerationalIndexAllocator::new();
    let a = allocator.allocate();
    let b = allocator.allocate();
    assert!(allocator.deallocate(a));
    assert!(!allocator.is_live(a));
    assert!(!allocator.deallocate(a));
    assert_eq!(allocator.live_count(), 1);
    assert_eq!(allocator.live_at_index(0), None);
    let c = allocator.allocate();
    assert_eq!(c.index(), 0);
    assert_eq!(c.generation(), 1);
    assert!(allocator.is_live(c));
    assert!(!allocator.is_live(a));
    assert!(allocator.is_live(b));
    assert_ne!(a, c);
    assert_eq!(allocator.max_allocated(), 2);
    assert_eq!(allocator.live_count(), 2);
}

#[test]
fn the_most_recently_freed_index_is_reused_first() {
    let mut allocator = GenerationalIndexAllocator::new();
    let a = allocator.allocate();
    let _b = allocator.allocate();
    let c = allocator.allocate();
    assert!(allocator.deallocate(a));
    assert!(allocator.deallocate(c));
    assert_eq!(allocator.allocate().index(), 2);
    assert_eq!(allocator.allocate().index(), 0);
    assert_eq!(allocator.allocate().index(), 3);
}

#[test]
fn deallocate_of_an_unknown_index_does_nothing() {
    let mut allocator = GenerationalIndexAllocator::new();
    let a = allocator.allocate();
    let mut other = GenerationalIndexAllocator::new();
    other.allocate();
    let far = other.allocate();
    assert!(!allocator.deallocate(far));
    assert!(!allocator.is_live(far));
    assert!(allocator.is_live(a));
    assert_eq!(allocator.live_count(), 1);
}

#[test]
fn default_allocator_is_empty() {
    let mut allocator = GenerationalIndexAllocator::default();
    assert_eq!(allocator.max_allocated(), 0);
    assert_eq!(allocator.allocate().index(), 0);
}
