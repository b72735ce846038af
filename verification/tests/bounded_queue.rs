use proxy::BoundedQueue;

fn items(q: &BoundedQueue<u32>) -> Vec<u32> {
    q.iter().copied().collect()
}

#[test]
fn new_queue_is_empty() {
    let q: BoundedQueue<u32> = BoundedQueue::new(3);
    assert!(items(&q).is_empty());
}

#[test]
fn push_keeps_order_below_capacity() {
    let mut q = BoundedQueue::new(3);
    q.push(1);
    q.push(2);
    assert_eq!(items(&q), vec![1, 2]);
}

#[test]
fn push_on_full_queue_drops_oldest() {
    let mut q = BoundedQueue::new(3);
    for v in 1..=5 {
        q.push(v);
    }
    assert_eq!(items(&q), vec![3, 4, 5]);
}

#[test]
fn capacity_one_keeps_last() {
    let mut q = BoundedQueue::new(1);
    q.push(7);
    q.push(8);
    q.push(9);
    assert_eq!(items(&q), vec![9]);
}

#[test]
fn capacity_zero_is_not_bounded() {
    let mut q = BoundedQueue::new(0);
    q.push(1);
    q.push(2);
    q.push(3);
    assert_eq!(items(&q), vec![1, 2, 3]);
}

#[test]
fn drain_takes_range_and_keeps_rest() {
    let mut q = BoundedQueue::new(10);
    for v in 0..6 {
        q.push(v);
    }
    let taken = q.drain(1..4);
    assert_eq!(taken, vec![1, 2, 3]);
    assert_eq!(items(&q), vec![0, 4, 5]);
    let none = q.drain(2..2);
    assert!(none.is_empty());
    let all = q.drain(0..3);
    assert_eq!(all, vec![0, 4, 5]);
    assert!(items(&q).is_empty());
}

#[test]
fn drained_queue_is_bounded_again() {
    let mut q = BoundedQueue::new(2);
    q.push(1);
    q.push(2);
    q.drain(0..1);
    q.push(3);
    q.push(4);
    assert_eq!(items(&q), vec![3, 4]);
}
