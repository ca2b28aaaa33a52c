use threadpooler::locked_batch::LockedBatch;

#[test]
fn test_own_once() {
    let mut b = LockedBatch::new(10, 0);
    assert!(b.is_free());
    assert!(b.own());
    assert!(!b.is_free());
    assert!(!b.own());
    assert_eq!(b.workers, 1);
}

#[test]
fn test_fast_path_claims() {
    let mut b = LockedBatch::new(3, 5);
    assert!(b.own());
    assert_eq!(b.get_next_index(), 0);
    assert_eq!(b.get_next_index(), 1);
    assert_eq!(b.get_next_index(), 2);
    let sentinel = b.get_next_index();
    assert!(sentinel >= b.count);
    assert!(!b.is_sharing());
    assert!(!b.is_complete());
    b.force_inc_counter(sentinel);
    assert!(b.is_complete());
}

#[test]
fn test_handoff_no_double_claim() {
    let mut b = LockedBatch::new(10, 0);
    assert!(b.own());
    assert_eq!(b.get_next_index(), 0);
    assert_eq!(b.get_next_index(), 1);
    b.request_share();
    assert!(b.is_wanting_share());
    assert!(!b.is_sharing());
    // the hand-off publishes the two fast-path claims and claims the third
    assert_eq!(b.get_next_index(), 2);
    assert!(b.is_sharing());
    assert_eq!(b.get_next_index(), 3);
    assert_eq!(b.get_current_index(), 4);
    assert!(!b.is_complete());
}

#[test]
fn test_add_worker_requests_share() {
    let mut b = LockedBatch::new(10, 0);
    assert!(b.own());
    b.add_worker();
    assert_eq!(b.workers, 2);
    assert!(b.is_wanting_share());
    // the owner's next claim performs the hand-off and wakes the joiner
    assert_eq!(b.get_next_index(), 0);
    assert!(b.is_sharing());
    assert!(b.waker);
    b.spin_wait();
}

#[test]
fn test_weight_policy() {
    let free = LockedBatch::new(100, 0);
    assert_eq!(free.get_weight(), 100);

    let mut lone = LockedBatch::new(100, 0);
    assert!(lone.own());
    assert_eq!(lone.get_weight(), 10);

    let mut joined = LockedBatch::new(100, 0);
    assert!(joined.own());
    joined.add_worker();
    assert_eq!(joined.get_weight(), 10);
    assert_eq!(joined.get_next_index(), 0);
    assert_eq!(joined.get_weight(), 49);
}
