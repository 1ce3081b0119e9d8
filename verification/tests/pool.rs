use firework::pool::SurfacePool;
use firework::FireworkError;

#[test]
fn fresh_pool_is_all_free() {
    let pool = SurfacePool::new(10);
    assert_eq!(pool.free_len(), 10);
    assert_eq!(pool.total_slots(), 10);
}

#[test]
fn acquire_hands_out_distinct_slots() {
    let mut pool = SurfacePool::new(4);
    let mut seen = vec![];
    for _ in 0..4 {
        let slot = pool.acquire().expect("a free slot");
        assert!(slot < 4);
        assert!(!seen.contains(&slot));
        seen.push(slot);
    }
    assert_eq!(pool.free_len(), 0);
}

#[test]
fn exhaustion_on_capacity_plus_one() {
    let mut pool = SurfacePool::new(3);
    for _ in 0..3 {
        pool.acquire().expect("a free slot");
    }
    assert_eq!(pool.acquire(), Err(FireworkError::Exhausted));
    assert_eq!(pool.free_len(), 0);
}

#[test]
fn release_then_acquire_succeeds_again() {
    let mut pool = SurfacePool::new(2);
    let a = pool.acquire().unwrap();
    let _b = pool.acquire().unwrap();
    assert_eq!(pool.acquire(), Err(FireworkError::Exhausted));
    pool.release(a);
    assert_eq!(pool.free_len(), 1);
    assert_eq!(pool.acquire(), Ok(a));
}

#[test]
fn conservation_at_every_observation_point() {
    let mut pool = SurfacePool::new(5);
    let mut held = vec![];
    for _ in 0..3 {
        held.push(pool.acquire().unwrap());
        assert_eq!(pool.free_len() + held.len(), 5);
    }
    while let Some(slot) = held.pop() {
        pool.release(slot);
        assert_eq!(pool.free_len() + held.len(), 5);
    }
    assert_eq!(pool.free_len(), 5);
}

#[test]
fn zero_capacity_pool_is_always_exhausted() {
    let mut pool = SurfacePool::new(0);
    assert_eq!(pool.acquire(), Err(FireworkError::Exhausted));
}
