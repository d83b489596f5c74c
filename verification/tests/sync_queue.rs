use open_storage::sync::{SyncQueue, MAX_EVENTS_TO_SYNC_PER_BATCH};

#[test]
fn events_leave_in_order() {
    let mut queue: SyncQueue<u32> = SyncQueue::new();
    assert_eq!(queue.len(), 0);
    assert!(!queue.is_in_progress());
    assert_eq!(queue.try_start_sync(), None);
    for n in 0..5 {
        queue.enqueue(n);
    }
    assert_eq!(queue.try_start_sync(), Some(vec![0, 1, 2, 3, 4]));
    assert!(queue.is_in_progress());
    queue.enqueue(5);
    // One batch at a time.
    assert_eq!(queue.try_start_sync(), None);
    assert_eq!(queue.len(), 1);
    queue.mark_sync_completed();
    assert_eq!(queue.try_start_sync(), Some(vec![5]));
}

#[test]
fn failed_batch_goes_back_to_the_head() {
    let mut queue: SyncQueue<u32> = SyncQueue::new();
    for n in 0..3 {
        queue.enqueue(n);
    }
    let batch = queue.try_start_sync().unwrap();
    queue.enqueue(3);
    queue.mark_sync_failed(batch);
    assert!(!queue.is_in_progress());
    assert_eq!(queue.len(), 4);
    assert_eq!(queue.try_start_sync(), Some(vec![0, 1, 2, 3]));
}

#[test]
fn a_batch_is_bounded() {
    let mut queue: SyncQueue<usize> = SyncQueue::new();
    for n in 0..MAX_EVENTS_TO_SYNC_PER_BATCH + 2 {
        queue.enqueue(n);
    }
    let batch = queue.try_start_sync().unwrap();
    assert_eq!(MAX_EVENTS_TO_SYNC_PER_BATCH, 10_000);
    assert_eq!(batch.len(), 10_000);
    assert_eq!(batch[0], 0);
    assert_eq!(batch[9_999], 9_999);
    assert_eq!(queue.len(), 2);
    queue.mark_sync_completed();
    assert_eq!(queue.try_start_sync(), Some(vec![10_000, 10_001]));
}
