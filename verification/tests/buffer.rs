use simpledb_rs::buffer::{BufferPool, PinOutcome};
use simpledb_rs::file::BlockId;

#[test]
fn test_buffer_manager() {
    let mut pool = BufferPool::new(3);
    let block0 = BlockId::new("log", 0);
    let block1 = BlockId::new("log", 1);
    let block2 = BlockId::new("log", 2);
    assert_eq!(pool.try_to_pin(&block0), PinOutcome::Assigned(0, None));
    assert_eq!(pool.try_to_pin(&block1), PinOutcome::Assigned(1, None));
    assert_eq!(pool.try_to_pin(&block2), PinOutcome::Assigned(2, None));
    assert_eq!(pool.get_num_availables(), 0);
}

#[test]
fn buffer_pins_and_unpins() {
    let mut pool = BufferPool::new(2);
    let a = BlockId::new("f", 0);
    let b = BlockId::new("f", 1);
    let c = BlockId::new("g", 0);
    assert_eq!(pool.get_num_availables(), 2);
    assert_eq!(pool.try_to_pin(&a), PinOutcome::Assigned(0, None));
    assert_eq!(pool.try_to_pin(&a), PinOutcome::Pinned(0));
    assert_eq!(pool.buffer(0).num_pins, 2);
    assert_eq!(pool.get_num_availables(), 1);
    assert_eq!(pool.find_existing_buffer(&a), Some(0));
    assert_eq!(pool.find_existing_buffer(&b), None);
    assert_eq!(pool.try_to_pin(&b), PinOutcome::Assigned(1, None));
    assert_eq!(pool.try_to_pin(&c), PinOutcome::Unavailable);
    assert_eq!(pool.choose_unpinned_buffer(), None);
    pool.unpin(1);
    assert_eq!(pool.get_num_availables(), 1);
    assert_eq!(pool.choose_unpinned_buffer(), Some(1));
    pool.set_modified(1, 7, 42);
    assert_eq!(pool.try_to_pin(&c), PinOutcome::Assigned(1, Some(42)));
    assert_eq!(pool.buffer(1).block, Some(c.clone()));
    assert_eq!(pool.buffer(1).modifying_transaction_id, None);
    assert_eq!(pool.get_num_availables(), 0);
    pool.unpin(0);
    pool.unpin(0);
    assert_eq!(pool.get_num_availables(), 1);
    // An unpinned buffer keeps its block and is found again.
    assert_eq!(pool.try_to_pin(&a), PinOutcome::Pinned(0));
}

#[test]
fn buffer_flush_all_of_a_transaction() {
    let mut pool = BufferPool::new(3);
    for slot in 0..3 {
        pool.try_to_pin(&BlockId::new("f", slot));
    }
    pool.set_modified(0, 5, 10);
    pool.set_modified(1, 6, 11);
    pool.set_modified(2, 5, 12);
    assert_eq!(pool.flush_all(5), vec![(0, 10), (2, 12)]);
    assert_eq!(pool.buffer(0).modifying_transaction_id, None);
    assert_eq!(pool.buffer(1).modifying_transaction_id, Some(6));
    assert_eq!(pool.flush_all(5), vec![]);
    assert_eq!(pool.len(), 3);
}
