use gnet::id::{Allocator, ConnectionId};

#[test]
fn allocator_reuses_ids() {
    let mut allocator = Allocator::default();
    let ids = [
        allocator.allocate().unwrap(),
        allocator.allocate().unwrap(),
        allocator.allocate().unwrap(),
    ];

    allocator.free(ids[0]);
    allocator.free(ids[1]);

    assert_eq!(allocator.allocate().unwrap(), ids[1]);
    assert_eq!(allocator.allocate().unwrap(), ids[0])
}

#[test]
fn allocator_reuses_all_ids() {
    let mut allocator = Allocator::default();
    let ids = [
        allocator.allocate().unwrap(),
        allocator.allocate().unwrap(),
        allocator.allocate().unwrap(),
        allocator.allocate().unwrap(),
    ];

    allocator.free(ids[2]);
    allocator.free(ids[0]);
    allocator.free(ids[1]);
    allocator.free(ids[3]);

    assert!(allocator.free_ids().is_empty());
    assert_eq!(allocator.last_id(), 0)
}

#[test]
fn allocator_runs_out_of_ids_before_0() {
    let mut allocator = Allocator::default();
    for id in 0 .. ConnectionId::MAX {
        assert_eq!(allocator.allocate().unwrap(), id + 1);
    };

    assert!(allocator.allocate().is_err())
}

#[test]
fn freed_ids_come_back_before_fresh_ones() {
    let mut allocator = Allocator::new();
    for _ in 0..5 {
        allocator.allocate().unwrap();
    }
    allocator.free(2);
    allocator.free(4);
    assert_eq!(allocator.free_ids(), &[2, 4]);
    assert_eq!(allocator.allocate(), Ok(4));
    assert_eq!(allocator.allocate(), Ok(2));
    assert_eq!(allocator.allocate(), Ok(6));
    allocator.free(6);
    assert_eq!(allocator.last_id(), 5);
}
