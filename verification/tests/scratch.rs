//! The pool of request memory.
use oxo_pingora_edge::scratch::{ScratchPool, PER_STRIPE_CAP, RETAIN_CAP_BYTES, STRIPES};

#[test]
fn recycled_scratch_shows_no_prior_request_state() {
    let mut pool = ScratchPool::new();
    {
        let mut s = pool.checkout();
        let secret = s.bump.alloc_str("SECRET-authorization-bearer-token");
        assert_eq!(secret, "SECRET-authorization-bearer-token");
        s.frame_buf.extend_from_slice(b"SECRET-frame-bytes");
        pool.checkin(s);
    }
    for _ in 0..STRIPES {
        let s = pool.checkout();
        assert_eq!(s.bump.allocated_bytes(), 0, "recycled bump must be reset");
        assert!(s.frame_buf.is_empty(), "recycled frame_buf must be cleared");
        let fresh = s.bump.alloc_str("ok").to_string();
        assert_eq!(fresh, "ok", "handout is length-exact, no stale suffix");
        pool.checkin(s);
    }
}

fn drained(pool: &mut ScratchPool) -> Vec<(usize, usize)> {
    (0..STRIPES * (PER_STRIPE_CAP + 1))
        .map(|_| {
            let s = pool.checkout();
            (s.frame_buf.capacity(), s.bump.allocated_bytes())
        })
        .collect()
}

#[test]
fn oversized_scratch_is_dropped_not_pooled() {
    let mut pool = ScratchPool::new();
    {
        let s = pool.checkout();
        let big = vec![0u8; RETAIN_CAP_BYTES + 1];
        let _ = s.bump.alloc_slice_copy(&big);
        pool.checkin(s);
    }
    {
        let mut s = pool.checkout();
        s.frame_buf.reserve(RETAIN_CAP_BYTES + 1);
        pool.checkin(s);
    }
    for (capacity, allocated) in drained(&mut pool) {
        assert!(capacity <= RETAIN_CAP_BYTES);
        assert!(allocated == 0);
    }
}

#[test]
fn pool_stays_bounded_under_churn() {
    let mut pool = ScratchPool::new();
    let out: Vec<_> = (0..STRIPES * PER_STRIPE_CAP * 2)
        .map(|_| {
            let mut s = pool.checkout();
            s.frame_buf.reserve(64);
            s
        })
        .collect();
    for s in out {
        pool.checkin(s);
    }
    let reused = drained(&mut pool)
        .into_iter()
        .filter(|(capacity, _)| *capacity > 0)
        .count();
    assert_eq!(reused, STRIPES * PER_STRIPE_CAP, "no stripe holds more than it may");
}

#[test]
fn small_scratches_are_kept_and_large_ones_are_not() {
    let mut pool = ScratchPool::new();
    let mut kept = pool.checkout();
    kept.frame_buf.reserve(10);
    pool.put_back(kept, RETAIN_CAP_BYTES, RETAIN_CAP_BYTES);
    let mut arena = pool.checkout();
    arena.frame_buf.reserve(10);
    pool.put_back(arena, RETAIN_CAP_BYTES + 1, 0);
    let mut buffer = pool.checkout();
    buffer.frame_buf.reserve(10);
    pool.put_back(buffer, 0, RETAIN_CAP_BYTES + 1);
    let reused = drained(&mut pool).into_iter().filter(|(c, _)| *c > 0).count();
    assert_eq!(reused, 1);
}

#[test]
fn a_recycled_arena_holds_nothing() {
    let mut pool = ScratchPool::new();
    let mut first = pool.checkout();
    first.bump.alloc_str("left behind");
    first.frame_buf.extend_from_slice(b"left behind");
    pool.checkin(first);
    let mut recycled: Vec<_> = (0..STRIPES)
        .map(|_| pool.checkout())
        .filter(|s| s.frame_buf.capacity() > 0)
        .collect();
    assert_eq!(recycled.len(), 1);
    assert!(recycled[0].frame_buf.is_empty());
    assert!(recycled[0].bump.iter_allocated_chunks().all(|chunk| chunk.is_empty()));
}

#[test]
fn an_arena_filled_beyond_the_cap_is_not_kept() {
    let mut pool = ScratchPool::new();
    let mut s = pool.checkout();
    for _ in 0..=RETAIN_CAP_BYTES / 1024 {
        s.bump.alloc_slice_copy(&[7u8; 1024]);
    }
    s.frame_buf.reserve(10);
    pool.checkin(s);
    assert!(drained(&mut pool).into_iter().all(|(capacity, _)| capacity == 0));
}

#[test]
fn a_buffer_filled_beyond_the_cap_is_not_kept() {
    let mut pool = ScratchPool::new();
    let mut s = pool.checkout();
    s.frame_buf.resize(RETAIN_CAP_BYTES + 1, 7);
    pool.checkin(s);
    assert!(drained(&mut pool).into_iter().all(|(capacity, _)| capacity == 0));
}
