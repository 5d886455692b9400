use unique::pool::BufferPool;

#[test]
fn pool_reuses_buffers() {
    let mut pool = BufferPool::new(4, 4096);
    let initial_allocs = pool.allocations();

    {
        let mut a = pool.acquire();
        a.extend_from_slice(b"hello");
        let allocs_after_acquire = pool.allocations();
        assert_eq!(allocs_after_acquire, initial_allocs); // came from the pre-warmed pool
        pool.release(a);
    }

    // The buffer is back in the pool: the next four acquires do not allocate.
    let _b = pool.acquire();
    let _c = pool.acquire();
    let _d = pool.acquire();
    let _e = pool.acquire();
    assert_eq!(pool.allocations(), initial_allocs);

    // The fifth acquire finds the pool empty and allocates.
    let _f = pool.acquire();
    assert_eq!(pool.allocations(), initial_allocs + 1);
}

#[test]
fn released_buffers_come_back_empty() {
    let mut pool = BufferPool::new(1, 16);
    let mut a = pool.acquire();
    a.extend_from_slice(b"dirty bytes");
    pool.release(a);
    let b = pool.acquire();
    assert!(b.is_empty());
    assert_eq!(pool.allocations(), 0);
}

#[test]
fn full_pool_drops_extra_buffers() {
    let mut pool = BufferPool::new(1, 8);
    // The pool is full: an extra buffer is dropped, not kept.
    pool.release(vec![1, 2, 3]);
    let _a = pool.acquire();
    let _b = pool.acquire();
    assert_eq!(pool.allocations(), 1);
}
