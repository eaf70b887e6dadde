use io_uring_rb::buffer_pool::BufferPool;
use io_uring_rb::{get_range_inner, last_buffer_index, RingBuffer, RingError};

#[test]
fn last_buffer_tests() {
    let k = last_buffer_index(64, 63, 64);
    assert_eq!(k, 63);
    let k = last_buffer_index(64, 0, 64);
    assert_eq!(k, 0);
    let k = last_buffer_index(64, 0, 25);
    assert_eq!(k, 0);
    let k = last_buffer_index(64, 0, 130);
    assert_eq!(k, 2);
}

#[test]
fn get_range_inner_test() {
    const LOCAL_BUFFER_SIZE: u32 = 64;
    let base: u64 = 0;
    assert_eq!((3, 4), get_range_inner(LOCAL_BUFFER_SIZE, base, 3 * LOCAL_BUFFER_SIZE as u64, 63));
    assert_eq!((0, 1), get_range_inner(LOCAL_BUFFER_SIZE, base, 0, 63));
    assert_eq!((0, 1), get_range_inner(LOCAL_BUFFER_SIZE, base, 0, 64));
}

#[test]
fn construction_rejects_bad_sizes() {
    assert!(matches!(RingBuffer::new(3, 4, 0, 0), Err(RingError::InvalidArgument)));
    assert!(matches!(RingBuffer::new(4, 3, 0, 0), Err(RingError::InvalidArgument)));
    assert!(matches!(RingBuffer::new(0, 4, 0, 0), Err(RingError::InvalidArgument)));
    assert!(matches!(RingBuffer::new(4, 0, 0, 0), Err(RingError::InvalidArgument)));
    // The pool would run past the end of the address space.
    assert!(matches!(RingBuffer::new(4, 4, u64::MAX - 8, 0), Err(RingError::InvalidArgument)));
}

#[test]
fn construction_publishes_every_slot() {
    let rb = RingBuffer::new(64, 8, 4096, 9).unwrap();
    assert_eq!(rb.group_id(), 9);
    assert_eq!(rb.tail(), 8);
    for i in 0..8u16 {
        let e = rb.entry(i);
        assert_eq!(e.addr, 4096 + i as u64 * 64);
        assert_eq!(e.len, 64);
        assert_eq!(e.bid, i);
    }
}

#[test]
fn pool_addresses() {
    let pool = BufferPool::new(4, 4, 1000).unwrap();
    assert_eq!(pool.get(0), Some(1000));
    assert_eq!(pool.get(1), Some(1004));
    assert_eq!(pool.get(3), Some(1012));
    assert_eq!(pool.get(4), None);
    assert_eq!(pool.get(100), None);
    assert_eq!(pool.ptr_for_bid(2), 1008);
    assert_eq!(pool.total_size(), 16);
}

#[test]
fn pool_rejects_bad_arguments() {
    assert!(matches!(BufferPool::new(6, 4, 0), Err(RingError::InvalidArgument)));
    assert!(matches!(BufferPool::new(4, 6, 0), Err(RingError::InvalidArgument)));
    assert!(matches!(BufferPool::new(4, 4, u64::MAX - 10), Err(RingError::InvalidArgument)));
}

#[test]
fn get_buffer_bounds() {
    let rb = RingBuffer::new(64, 64, 0, 0).unwrap();
    // Longer than one slot's capacity.
    assert!(rb.get_buffer(0, 65).is_none());
    // Slot id out of bounds.
    assert!(rb.get_buffer(64, 10).is_none());
    let b = rb.get_buffer(63, 64).unwrap();
    assert_eq!(b.bid(), 63);
    assert_eq!(b.len(), 64);
    assert_eq!(b.addr(), 63 * 64);
    let b = rb.get_buffer(5, 0).unwrap();
    assert_eq!(b.len(), 0);
}

#[test]
fn range_wraps_past_the_end() {
    // 3 slots needed, only 2 remain before the wrap.
    let rb = RingBuffer::new(64, 64, 0, 0).unwrap();
    let rg = rb.get_buffers_range(62, 130).unwrap();
    assert_eq!(rg.first().addr(), 62 * 64);
    assert_eq!(rg.first().len(), 128);
    let second = rg.second().unwrap();
    assert_eq!(second.addr(), 0);
    assert_eq!(second.len(), 2);
}

#[test]
fn range_without_wrap() {
    let rb = RingBuffer::new(64, 64, 0, 0).unwrap();
    let rg = rb.get_buffers_range(0, 130).unwrap();
    assert_eq!(rg.first().addr(), 0);
    assert_eq!(rg.first().len(), 130);
    assert!(rg.second().is_none());
    // Out-of-bounds first id yields nothing.
    assert!(rb.get_buffers_range(64, 130).is_none());
}

#[test]
fn recycle_one_buffer() {
    let mut rb = RingBuffer::new(64, 8, 0, 0).unwrap();
    let t0 = rb.tail();
    assert_eq!(t0, 8);
    let b = rb.get_buffer(3, 17).unwrap();
    rb.recycle_buffer(&b);
    assert_eq!(rb.tail(), t0 + 1);
    let e = rb.entry(t0 & 7);
    assert_eq!(e.addr, 3 * 64);
    assert_eq!(e.len, 64);
    assert_eq!(e.bid, 3);
}

#[test]
fn recycle_wrapped_range_in_slot_order() {
    let mut rb = RingBuffer::new(4, 4, 0, 0).unwrap();
    let rg = rb.get_buffers_range(2, 10).unwrap();
    assert_eq!(rg.first().len(), 8);
    assert_eq!(rg.second().unwrap().len(), 2);
    let t0 = rb.tail();
    rb.recycle_inner_range(&rg);
    assert_eq!(rb.tail(), t0 + 3);
    // One correct entry per recovered slot id, ascending: 2, 3, then 0.
    let expect = [2u16, 3, 0];
    for (i, bid) in expect.iter().enumerate() {
        let e = rb.entry((t0 + i as u16) & 3);
        assert_eq!(e.bid, *bid);
        assert_eq!(e.addr, *bid as u64 * 4);
        assert_eq!(e.len, 4);
    }
}

#[test]
fn single_buffer_reuse_over_two_passes() {
    // 8 sequential fill/recycle cycles through 4 physical slots: every
    // payload comes back intact and in order.
    let mut rb = RingBuffer::new(4, 4, 0, 0).unwrap();
    let mut recovered: Vec<Vec<u8>> = Vec::new();
    let mut expected: Vec<Vec<u8>> = Vec::new();
    for c in 0u16..8 {
        // The kernel drains the ring in order: completion c selects the
        // descriptor at index c masked by the ring size.
        let e = rb.entry(c & 3);
        let payload = vec![c as u8, 10 + c as u8, 20 + c as u8, 30 + c as u8];
        rb.fill_at(e.addr, &payload);
        expected.push(payload);
        let b = rb.get_buffer(e.bid, 4).unwrap();
        recovered.push(rb.pool().read_at(b.addr(), b.len()));
        rb.recycle_buffer(&b);
    }
    assert_eq!(rb.tail(), 12);
    assert_eq!(recovered, expected);
}

#[test]
fn round_trip_through_a_wrapped_range() {
    let mut rb = RingBuffer::new(4, 4, 0, 0).unwrap();
    let rg = rb.get_buffers_range(2, 10).unwrap();
    let pattern: Vec<u8> = (1u8..=10).collect();
    let first_part: Vec<u8> = pattern[..8].to_vec();
    let second_part: Vec<u8> = pattern[8..].to_vec();
    rb.fill_at(rg.first().addr(), &first_part);
    rb.fill_at(rg.second().unwrap().addr(), &second_part);
    assert_eq!(rg.as_iterator(rb.pool()), pattern);
    let total = rg.first().len() + rg.second().unwrap().len();
    let t0 = rb.tail();
    rb.recycle_inner_range(&rg);
    assert_eq!(rb.tail(), t0 + 3);
    // Every republished entry names the right per-slot address, and the
    // observed length fits the capacity of the three slots consumed.
    for (i, bid) in [2u16, 3, 0].iter().enumerate() {
        let e = rb.entry((t0 + i as u16) & 3);
        assert_eq!(e.addr, *bid as u64 * 4);
        assert_eq!(e.bid, *bid);
    }
    assert_eq!(total, 10);
    assert!(total <= 3 * 4);
}

#[test]
fn range_parts_and_iteration() {
    let mut rb = RingBuffer::new(4, 4, 0, 0).unwrap();
    let rg = rb.get_buffers_range(3, 6).unwrap();
    rb.fill_at(rg.first().addr(), &vec![7, 8, 9, 10]);
    rb.fill_at(rg.second().unwrap().addr(), &vec![11, 12]);
    let (a, b) = rg.as_parts(rb.pool());
    assert_eq!(a, vec![7, 8, 9, 10]);
    assert_eq!(b.unwrap(), vec![11, 12]);
    assert_eq!(rg.as_iterator(rb.pool()), vec![7, 8, 9, 10, 11, 12]);
    let rg2 = rb.get_buffers_range(0, 3).unwrap();
    let (a2, b2) = rg2.as_parts(rb.pool());
    assert_eq!(a2.len(), 3);
    assert!(b2.is_none());
}

#[test]
fn tail_counter_wraps_modulo_16_bits() {
    let mut rb = RingBuffer::new(4, 4, 0, 0).unwrap();
    // Drive the 16-bit tail across its wraparound.
    let b = rb.get_buffer(1, 4).unwrap();
    for _ in 0..65534u32 {
        rb.recycle_buffer(&b);
    }
    assert_eq!(rb.tail(), 65538u32 as u16);
    rb.recycle_buffer(&b);
    assert_eq!(rb.tail(), 3);
}
