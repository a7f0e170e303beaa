use simple_rate_limit::BoundedBuffer;

#[test]
fn buffer_of_one() {
    let mut q: BoundedBuffer<usize> = BoundedBuffer::new(1);
    assert_eq!(q.peek(), None);
    assert_eq!(q.pop(), None);
    assert_eq!(q.push(1), Ok(()));
    assert_eq!(q.peek(), Some(&1));
    assert_eq!(q.pop(), Some(1));
    assert_eq!(q.peek(), None);
    assert_eq!(q.pop(), None);
    assert_eq!(q.push(2), Ok(()));
    assert_eq!(q.peek(), Some(&2));
    assert_eq!(q.push(3), Err(3));
    assert_eq!(q.pop(), Some(2));
    assert_eq!(q.push(4), Ok(()));
    assert_eq!(q.peek(), Some(&4));
    assert_eq!(q.pop(), Some(4));
    assert_eq!(q.peek(), None);
    assert_eq!(q.pop(), None);
    assert_eq!(q.peek(), None);
}

#[test]
fn buffer_fills_in_order_and_refuses_more() {
    let mut q: BoundedBuffer<u32> = BoundedBuffer::new(3);
    assert_eq!(q.capacity(), 3);
    assert_eq!(q.len(), 0);
    assert_eq!(q.is_full(), false);
    assert_eq!(q.push(10), Ok(()));
    assert_eq!(q.push(20), Ok(()));
    assert_eq!(q.len(), 2);
    assert_eq!(q.is_full(), false);
    assert_eq!(q.push(30), Ok(()));
    assert_eq!(q.len(), 3);
    assert_eq!(q.is_full(), true);
    assert_eq!(q.push(40), Err(40));
    assert_eq!(q.len(), 3);
    assert_eq!(q.peek(), Some(&10));
    assert_eq!(q.pop(), Some(10));
    assert_eq!(q.pop(), Some(20));
    assert_eq!(q.pop(), Some(30));
    assert_eq!(q.pop(), None);
    assert_eq!(q.len(), 0);
}

#[test]
fn preallocated_buffer_fills_in_order_and_refuses_more() {
    let mut q: BoundedBuffer<u32> = BoundedBuffer::new_preallocated(3);
    assert_eq!(q.capacity(), 3);
    assert_eq!(q.peek(), None);
    assert_eq!(q.push(10), Ok(()));
    assert_eq!(q.push(20), Ok(()));
    assert_eq!(q.push(30), Ok(()));
    assert_eq!(q.push(40), Err(40));
    assert_eq!(q.pop(), Some(10));
    assert_eq!(q.push(40), Ok(()));
    assert_eq!(q.pop(), Some(20));
    assert_eq!(q.pop(), Some(30));
    assert_eq!(q.pop(), Some(40));
    assert_eq!(q.pop(), None);
}

#[test]
fn buffer_wraps_round_many_times() {
    let mut q: BoundedBuffer<u64> = BoundedBuffer::new(4);
    let mut next_in: u64 = 0;
    let mut next_out: u64 = 0;
    for round in 0..50u64 {
        let burst = 1 + round % 4;
        for _ in 0..burst {
            assert_eq!(q.push(next_in), Ok(()));
            next_in += 1;
        }
        assert_eq!(q.len() as u64, next_in - next_out);
        assert_eq!(q.peek(), Some(&next_out));
        for _ in 0..burst {
            assert_eq!(q.pop(), Some(next_out));
            next_out += 1;
        }
        assert_eq!(q.pop(), None);
    }
    assert_eq!(next_in, next_out);
}

#[test]
fn buffer_interleaves_before_it_is_whole() {
    let mut q: BoundedBuffer<u8> = BoundedBuffer::new(3);
    assert_eq!(q.push(1), Ok(()));
    assert_eq!(q.push(2), Ok(()));
    assert_eq!(q.pop(), Some(1));
    assert_eq!(q.push(3), Ok(()));
    assert_eq!(q.push(4), Ok(()));
    assert_eq!(q.push(5), Err(5));
    assert_eq!(q.pop(), Some(2));
    assert_eq!(q.pop(), Some(3));
    assert_eq!(q.push(5), Ok(()));
    assert_eq!(q.push(6), Ok(()));
    assert_eq!(q.is_full(), true);
    assert_eq!(q.pop(), Some(4));
    assert_eq!(q.pop(), Some(5));
    assert_eq!(q.pop(), Some(6));
    assert_eq!(q.pop(), None);
}

#[test]
fn buffer_emptied_early_starts_over() {
    let mut q: BoundedBuffer<u8> = BoundedBuffer::new(2);
    assert_eq!(q.push(1), Ok(()));
    assert_eq!(q.pop(), Some(1));
    assert_eq!(q.push(2), Ok(()));
    assert_eq!(q.pop(), Some(2));
    assert_eq!(q.push(3), Ok(()));
    assert_eq!(q.push(4), Ok(()));
    assert_eq!(q.push(5), Err(5));
    assert_eq!(q.peek(), Some(&3));
    assert_eq!(q.pop(), Some(3));
    assert_eq!(q.pop(), Some(4));
}

#[test]
fn buffer_without_capacity_refuses_everything() {
    let mut q: BoundedBuffer<u8> = BoundedBuffer::new(0);
    assert_eq!(q.capacity(), 0);
    assert_eq!(q.is_full(), true);
    assert_eq!(q.push(1), Err(1));
    assert_eq!(q.peek(), None);
    assert_eq!(q.pop(), None);
    let mut p: BoundedBuffer<u8> = BoundedBuffer::new_preallocated(0);
    assert_eq!(p.push(1), Err(1));
    assert_eq!(p.pop(), None);
}

#[test]
fn preallocation_beyond_memory_is_not_fatal() {
    let mut q: BoundedBuffer<u64> = BoundedBuffer::new_preallocated(usize::MAX);
    assert_eq!(q.capacity(), usize::MAX);
    assert_eq!(q.push(1), Ok(()));
    assert_eq!(q.push(2), Ok(()));
    assert_eq!(q.pop(), Some(1));
    assert_eq!(q.peek(), Some(&2));
}
