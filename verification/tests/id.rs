use kernel::task::id::{IdAllocator, ID_LIMIT};

#[test]
fn identifiers_come_in_order_from_zero() {
    let mut allocator = IdAllocator::new();
    assert_eq!(allocator.allocate(), 0);
    assert_eq!(allocator.allocate(), 1);
    assert_eq!(allocator.allocate(), 2);
}

#[test]
fn the_smallest_free_identifier_is_reused_first() {
    let mut allocator = IdAllocator::new();
    for expected in 0..6 {
        assert_eq!(allocator.allocate(), expected);
    }
    allocator.deallocate(4);
    allocator.deallocate(1);
    allocator.deallocate(3);
    assert_eq!(allocator.allocate(), 1);
    assert_eq!(allocator.allocate(), 3);
    assert_eq!(allocator.allocate(), 4);
    assert_eq!(allocator.allocate(), 6);
}

#[test]
fn an_identifier_in_use_is_never_issued_again() {
    let mut allocator = IdAllocator::new();
    let mut live = Vec::new();
    for round in 0..40usize {
        let id = allocator.allocate();
        assert!(!live.contains(&id));
        live.push(id);
        if round % 3 == 2 {
            let gone = live.remove(round % live.len());
            allocator.deallocate(gone);
        }
    }
}

#[test]
fn is_allocated_follows_allocation_and_release() {
    let mut allocator = IdAllocator::new();
    assert!(!allocator.is_allocated(0));
    let id = allocator.allocate();
    assert!(allocator.is_allocated(id));
    assert!(!allocator.is_allocated(id + 1));
    allocator.deallocate(id);
    assert!(!allocator.is_allocated(id));
}

#[test]
fn a_fresh_allocator_can_allocate() {
    let allocator = IdAllocator::new();
    assert!(allocator.can_allocate());
    assert_eq!(ID_LIMIT, 0x7fff_ffff);
}
