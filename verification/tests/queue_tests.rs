use trast::queue::InboundQueue;

#[test]
fn accepts_until_capacity_then_refuses() {
    let mut q: InboundQueue<u64> = InboundQueue::new(2);
    assert!(q.try_push(1));
    assert!(q.try_push(2));
    assert!(q.is_full());
    // at capacity: the submission is refused and nothing pending is lost
    assert!(!q.try_push(3));
    assert_eq!(q.len(), 2);
}

#[test]
fn slot_frees_and_blocked_submission_goes_through() {
    let mut q: InboundQueue<u64> = InboundQueue::new(2);
    assert!(q.try_push(1));
    assert!(q.try_push(2));
    assert!(!q.try_push(3));
    // a consumer takes the oldest item; the held-back submission now fits
    assert_eq!(q.pop(), Some(1));
    assert!(q.try_push(3));
    // order of the survivors is unchanged
    assert_eq!(q.pop(), Some(2));
    assert_eq!(q.pop(), Some(3));
    assert_eq!(q.pop(), None);
}

#[test]
fn first_in_first_out() {
    let mut q: InboundQueue<&str> = InboundQueue::new(4);
    assert!(q.try_push("a"));
    assert!(q.try_push("b"));
    assert!(q.try_push("c"));
    assert_eq!(q.pop(), Some("a"));
    assert_eq!(q.pop(), Some("b"));
    assert_eq!(q.pop(), Some("c"));
    assert_eq!(q.pop(), None);
}

#[test]
fn zero_capacity_refuses_everything() {
    let mut q: InboundQueue<u64> = InboundQueue::new(0);
    assert!(!q.try_push(1));
    assert_eq!(q.pop(), None);
}
