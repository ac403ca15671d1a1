use skelanim::pool::{Pool, PoolIndex};

#[derive(Debug, Clone, PartialEq)]
struct TestObject {
    value: i32,
}

impl TestObject {
    fn new(value: i32) -> Self {
        Self { value }
    }
}

#[test]
fn test_pool_acquire_and_release() {
    let mut pool: Pool<TestObject> = Pool::new();

    // Acquire some objects
    let idx1 = pool.acquire(|| TestObject::new(1));
    let idx2 = pool.acquire(|| TestObject::new(2));
    let idx3 = pool.acquire(|| TestObject::new(3));

    assert_eq!(pool.active_count(), 3);
    assert_eq!(pool.get(idx1).unwrap().value, 1);
    assert_eq!(pool.get(idx2).unwrap().value, 2);
    assert_eq!(pool.get(idx3).unwrap().value, 3);

    // Release middle object
    assert!(pool.release(idx2));
    assert_eq!(pool.active_count(), 2);
    assert!(pool.get(idx2).is_none());

    // idx1 and idx3 should still be valid
    assert_eq!(pool.get(idx1).unwrap().value, 1);
    assert_eq!(pool.get(idx3).unwrap().value, 3);
}

#[test]
fn test_pool_reuse_slot() {
    let mut pool: Pool<TestObject> = Pool::new();

    // Acquire and release
    let idx1 = pool.acquire(|| TestObject::new(100));
    pool.release(idx1);

    // Acquire again - should reuse the same slot
    let idx2 = pool.acquire(|| TestObject::new(200));
    assert_eq!(idx1.raw(), idx2.raw(), "Should reuse the same slot");
    assert_eq!(pool.get(idx2).unwrap().value, 200);
}

#[test]
fn test_pool_free_list_order() {
    let mut pool: Pool<TestObject> = Pool::new();

    // Acquire 3 objects
    let idx0 = pool.acquire(|| TestObject::new(0));
    let idx1 = pool.acquire(|| TestObject::new(1));
    let idx2 = pool.acquire(|| TestObject::new(2));

    // Release in order: 1, 0, 2
    pool.release(idx1);
    pool.release(idx0);
    pool.release(idx2);

    // Acquire should get them in LIFO order: 2, 0, 1
    let new_idx1 = pool.acquire(|| TestObject::new(10));
    let new_idx2 = pool.acquire(|| TestObject::new(20));
    let new_idx3 = pool.acquire(|| TestObject::new(30));

    assert_eq!(new_idx1.raw(), 2);
    assert_eq!(new_idx2.raw(), 0);
    assert_eq!(new_idx3.raw(), 1);
}

#[test]
fn test_pool_iteration() {
    let mut pool: Pool<TestObject> = Pool::new();

    pool.acquire(|| TestObject::new(1));
    let idx2 = pool.acquire(|| TestObject::new(2));
    pool.acquire(|| TestObject::new(3));

    // Release middle
    pool.release(idx2);

    // Iteration should skip the vacant slot
    let values: Vec<i32> = pool.iter().into_iter().map(|obj| obj.value).collect();
    assert_eq!(values, vec![1, 3]);
}

#[test]
fn test_pool_get_mut() {
    let mut pool: Pool<TestObject> = Pool::new();

    let idx = pool.acquire(|| TestObject::new(42));

    // Modify via get_mut
    if let Some(obj) = pool.get_mut(idx) {
        obj.value = 100;
    }

    assert_eq!(pool.get(idx).unwrap().value, 100);
}

#[test]
fn test_pool_double_release() {
    let mut pool: Pool<TestObject> = Pool::new();

    let idx = pool.acquire(|| TestObject::new(1));
    assert!(pool.release(idx));
    assert!(!pool.release(idx), "Double release should return false");
}

#[test]
fn test_pool_invalid_index() {
    let mut pool: Pool<TestObject> = Pool::new();

    let invalid = PoolIndex(999);
    assert!(pool.get(invalid).is_none());
    assert!(!pool.release(invalid));
}

#[test]
fn test_pool_clear() {
    let mut pool: Pool<TestObject> = Pool::new();

    pool.acquire(|| TestObject::new(1));
    pool.acquire(|| TestObject::new(2));
    pool.acquire(|| TestObject::new(3));

    pool.clear();

    assert_eq!(pool.active_count(), 0);
    assert!(pool.is_empty());
}

#[test]
fn test_pool_collect_active() {
    let mut pool: Pool<i32> = Pool::new();

    pool.acquire(|| 10);
    let idx2 = pool.acquire(|| 20);
    pool.acquire(|| 30);

    pool.release(idx2);

    let mut buffer = Vec::new();
    pool.collect_active(&mut buffer);

    assert_eq!(buffer, vec![10, 30]);
}

#[test]
fn test_pool_with_capacity() {
    let pool: Pool<TestObject> = Pool::with_capacity(100);

    assert_eq!(pool.active_count(), 0);
    assert_eq!(pool.capacity(), 0); // No slots allocated yet, just reserved
}

#[test]
fn test_pool_is_active() {
    let mut pool: Pool<TestObject> = Pool::new();

    let idx = pool.acquire(|| TestObject::new(1));
    assert!(pool.is_active(idx));

    pool.release(idx);
    assert!(!pool.is_active(idx));
}

#[test]
fn test_pool_acquire_with_reset_reuse() {
    let mut pool: Pool<TestObject> = Pool::new();
    let idx1 = pool.acquire(|| TestObject::new(10));
    pool.release(idx1);

    // Should reuse the slot and NOT call init
    let idx2 = pool.acquire_with_reset(
        || panic!("Should not call init when reusing!"),
        |obj| {
            // Verify the old value is still there (memory persisted)
            assert_eq!(obj.value, 10);
            obj.value = 20;
        },
    );

    // Index should be reused (LIFO)
    assert_eq!(idx1, idx2);
    assert_eq!(pool.get(idx2).unwrap().value, 20);
}

#[test]
fn pool_acquire_with_reset_grows_when_nothing_is_free() {
    let mut pool: Pool<TestObject> = Pool::new();
    let idx = pool.acquire_with_reset(|| TestObject::new(7), |_| panic!("nothing to reset"));
    assert_eq!(idx.raw(), 0);
    assert_eq!(pool.capacity(), 1);
    assert_eq!(pool.get(idx).unwrap().value, 7);
}

#[test]
fn pool_released_object_stays_in_its_slot() {
    let mut pool: Pool<TestObject> = Pool::new();
    let a = pool.acquire(|| TestObject::new(1));
    let b = pool.acquire(|| TestObject::new(2));
    assert!(pool.release(a));
    assert_eq!(pool.capacity(), 2);
    assert_eq!(pool.active_count(), 1);
    assert!(!pool.is_empty());
    assert!(pool.get_mut(a).is_none());
    let with_index: Vec<(usize, i32)> =
        pool.iter_with_index().into_iter().map(|(i, o)| (i.raw(), o.value)).collect();
    assert_eq!(with_index, vec![(b.raw(), 2)]);
    assert!(pool.release(b));
    assert!(pool.is_empty());
    assert!(pool.iter().is_empty());
}
