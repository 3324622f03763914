use rpc_adapter::pool::{
    BufferPool, BufferSlab, PoolError, RecvBuffer, Region, GROWTH_BUFFERS, GROWTH_BUFFER_SIZE,
};

const GIB: usize = 1 << 30;

fn region(id: u32) -> Region {
    Region { id, addr: (id as usize + 1) * GIB, len: GIB }
}

#[test]
fn slab_growth_on_empty_pool() {
    let mut pool = BufferPool::new();
    assert_eq!(pool.num_slabs(), 0);
    let mut seen: Vec<(u32, usize)> = Vec::new();
    for k in 0..129u32 {
        let b = pool.obtain(region(k));
        if k == 0 {
            assert_eq!(pool.num_slabs(), 1);
        }
        if k == 127 {
            assert_eq!(pool.num_slabs(), 1);
        }
        assert!(!seen.contains(&(b.storage.id, b.offset)));
        seen.push((b.storage.id, b.offset));
    }
    assert_eq!(pool.num_slabs(), 2);
    assert_eq!(seen.len(), 129);
    assert_eq!(seen[128], (128, 0));
    assert_eq!(seen[1], (0, GROWTH_BUFFER_SIZE));
}

#[test]
fn obtain_takes_lowest_free_buffer() {
    let mut pool = BufferPool::new();
    let a = pool.obtain(region(1));
    let b = pool.obtain(region(2));
    assert_eq!(a.offset, 0);
    assert_eq!(b.offset, GROWTH_BUFFER_SIZE);
    assert_eq!(a.len(), GROWTH_BUFFER_SIZE);
    assert_eq!(a.align(), GROWTH_BUFFER_SIZE);
    pool.release(a);
    let c = pool.obtain(region(3));
    assert_eq!(c.offset, 0);
    assert_eq!(c.storage.id, 1);
    assert_eq!(pool.num_slabs(), 1);
}

#[test]
fn pool_needs_growth_only_when_full() {
    let mut pool = BufferPool::new();
    assert!(pool.needs_growth());
    let mut held = Vec::new();
    for k in 0..GROWTH_BUFFERS as u32 {
        held.push(pool.obtain(region(k)));
        assert_eq!(pool.needs_growth(), k + 1 == GROWTH_BUFFERS as u32);
    }
    let last = held.pop().unwrap();
    pool.release(last);
    assert!(!pool.needs_growth());
}

#[test]
fn release_then_obtain_never_leaks() {
    let mut pool = BufferPool::new();
    for round in 0..3u32 {
        let mut bufs = Vec::new();
        for _ in 0..200u32 {
            bufs.push(pool.obtain(region(10 + pool.num_slabs() as u32)));
        }
        assert_eq!(pool.num_slabs(), 2, "round {round}");
        for b in bufs {
            pool.release(b);
        }
    }
}

#[test]
fn find_returns_storage_by_handle() {
    let mut pool = BufferPool::new();
    pool.obtain(region(7));
    assert_eq!(pool.find(7), Ok(region(7)));
    assert_eq!(pool.find(8), Err(PoolError::NotFound));
}

#[test]
fn handle_packs_storage_and_index() {
    let b = RecvBuffer { offset: 3 * 4096, len: 4096, align: 4096, storage: region(2) };
    assert_eq!(b.as_handle(), 2 * 65536 + 3);
    let c = RecvBuffer { offset: 65535 * 4096, len: 4096, align: 4096, storage: region(65535) };
    assert_eq!(c.as_handle(), 0xffff_ffff);
    assert_eq!(b.addr(), 3 * GIB + 3 * 4096);
}

#[test]
fn handles_distinct_across_slabs() {
    let mut pool = BufferPool::new();
    let mut handles = Vec::new();
    for k in 0..300u32 {
        let b = pool.obtain(region(k));
        let h = b.as_handle();
        assert!(!handles.contains(&h));
        handles.push(h);
    }
}

#[test]
fn slab_rounds_size_up_to_alignment() {
    let s = BufferSlab::new(4, 100, 4096, Region { id: 1, addr: 8192, len: 4 * 4096 }).unwrap();
    assert_eq!(s.buffer_size, 4096);
    assert_eq!(s.num_buffers, 4);
}

#[test]
fn slab_rejects_small_or_misaligned_region() {
    let small = BufferSlab::new(4, 4096, 4096, Region { id: 1, addr: 8192, len: 4096 });
    assert!(matches!(small, Err(PoolError::BadRegion)));
    let misaligned = BufferSlab::new(1, 4096, 8192, Region { id: 1, addr: 4096, len: 8192 });
    assert!(matches!(misaligned, Err(PoolError::BadRegion)));
}

#[test]
fn slab_rejects_oversized_layout() {
    let huge = BufferSlab::new(usize::MAX, 4096, 4096, Region { id: 1, addr: 0, len: 4096 });
    assert!(matches!(huge, Err(PoolError::InvalidLayout)));
    let over = BufferSlab::new(1 << 51, 4096, 4096, Region { id: 1, addr: 0, len: 4096 });
    assert!(matches!(over, Err(PoolError::InvalidLayout)));
}

#[test]
fn slab_obtain_until_full_then_release() {
    let mut s = BufferSlab::new(2, 4096, 4096, Region { id: 9, addr: 4096, len: 8192 }).unwrap();
    let a = s.obtain().unwrap();
    let b = s.obtain().unwrap();
    assert_eq!((a.offset, b.offset), (0, 4096));
    assert!(s.obtain().is_none());
    s.release(b);
    let c = s.obtain().unwrap();
    assert_eq!(c.offset, 4096);
    assert_eq!(s.storage(), Region { id: 9, addr: 4096, len: 8192 });
}
