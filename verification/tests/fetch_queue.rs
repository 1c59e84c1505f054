use ferrex_player::batch::MediaId;
use ferrex_player::fetch_queue::{
    gather_step, BatchCollector, FetchPriority, FetchQueue, FetchRequest, GatherStep, OfferOutcome,
};

fn req(id: u128, priority: FetchPriority, timestamp: u64) -> FetchRequest {
    FetchRequest { priority, media_id: MediaId::Movie(id), library_id: 7, timestamp }
}

#[test]
fn duplicate_requests_are_skipped() {
    let mut q = FetchQueue::new();
    assert!(q.queue_request(req(1, FetchPriority::Medium, 1)));
    assert!(!q.queue_request(req(1, FetchPriority::Medium, 2)));
    assert!(!q.queue_request(req(1, FetchPriority::Low, 3)));
    assert_eq!(q.len(), 1);
    assert_eq!(q.queued_count(FetchPriority::Medium), 1);
}

#[test]
fn better_priority_upgrades_the_queued_request() {
    let mut q = FetchQueue::new();
    assert!(q.queue_request(req(1, FetchPriority::Low, 1)));
    assert!(q.queue_request(req(1, FetchPriority::High, 2)));
    assert_eq!(q.len(), 1);
    assert_eq!(q.queued_count(FetchPriority::Low), 0);
    assert_eq!(q.queued_count(FetchPriority::High), 1);
    let r = q.pop().unwrap();
    assert_eq!(r.priority, FetchPriority::High);
    assert_eq!(r.timestamp, 2);
}

#[test]
fn pop_serves_high_first_then_latest_timestamp() {
    let mut q = FetchQueue::new();
    q.queue_request(req(1, FetchPriority::Low, 10));
    q.queue_request(req(2, FetchPriority::Medium, 20));
    q.queue_request(req(3, FetchPriority::Medium, 30));
    q.queue_request(req(4, FetchPriority::High, 5));
    let order: Vec<MediaId> = std::iter::from_fn(|| q.pop()).map(|r| r.media_id).collect();
    assert_eq!(order, vec![MediaId::Movie(4), MediaId::Movie(3), MediaId::Movie(2), MediaId::Movie(1)]);
    assert_eq!(q.queued_count(FetchPriority::Medium), 0);
    assert!(q.is_empty());
}

#[test]
fn queue_items_stamps_increasing_timestamps() {
    let mut q = FetchQueue::new();
    q.queue_items(&vec![(MediaId::Series(1), 9), (MediaId::Series(2), 9)], FetchPriority::Medium, 1000);
    assert_eq!(q.len(), 2);
    let first = q.pop().unwrap();
    assert_eq!(first.media_id, MediaId::Series(2));
    assert_eq!(first.timestamp, 1001);
    assert_eq!(first.library_id, 9);
}

#[test]
fn shut_down_queue_accepts_nothing() {
    let mut q = FetchQueue::new();
    q.shutdown();
    assert!(q.is_shut_down());
    assert!(!q.queue_request(req(1, FetchPriority::High, 1)));
    assert!(q.is_empty());
}

#[test]
fn put_back_keeps_counters() {
    let mut q = FetchQueue::new();
    q.queue_request(req(1, FetchPriority::High, 1));
    let r = q.pop().unwrap();
    assert_eq!(q.queued_count(FetchPriority::High), 0);
    q.put_back(r);
    assert_eq!(q.len(), 1);
    assert_eq!(q.queued_count(FetchPriority::High), 0);
}

#[test]
fn collector_batches_one_priority_and_library() {
    let mut c = BatchCollector::new();
    assert_eq!(c.target_size(), 100);
    assert_eq!(c.offer(req(1, FetchPriority::High, 1), true, false), OfferOutcome::Skipped);
    assert_eq!(c.offer(req(2, FetchPriority::High, 1), false, true), OfferOutcome::Skipped);
    assert_eq!(c.offer(req(3, FetchPriority::High, 1), false, false), OfferOutcome::Taken);
    assert_eq!(c.target_size(), 30);
    assert_eq!(c.offer(req(4, FetchPriority::High, 2), false, false), OfferOutcome::Taken);
    assert_eq!(c.offer(req(5, FetchPriority::Low, 3), false, false), OfferOutcome::Rejected);
    let other_library = FetchRequest { library_id: 8, ..req(6, FetchPriority::High, 4) };
    assert_eq!(c.offer(other_library, false, false), OfferOutcome::Rejected);
    assert_eq!(c.requests.len(), 2);
    assert!(c.should_process(30, 0, true));
    assert!(!c.should_process(30, 10, false));
    assert!(c.should_process(30, 500, false));
    assert!(c.should_process(2, 0, false));
    assert!(!BatchCollector::new().should_process(30, 999, true));
}

#[test]
fn gathering_skips_busy_takes_matching_and_stops_on_mismatch() {
    let mut q = FetchQueue::new();
    q.queue_request(req(1, FetchPriority::High, 1));
    q.queue_request(req(2, FetchPriority::High, 2));
    q.queue_request(req(3, FetchPriority::Low, 3));
    let mut c = BatchCollector::new();
    let mut busy = vec![MediaId::Movie(2)];
    let cached: Vec<MediaId> = vec![];
    // Latest high-priority first: 2 is busy and skipped.
    assert_eq!(gather_step(&mut q, &mut c, &mut busy, &cached), GatherStep::Continue);
    assert_eq!(c.requests.len(), 0);
    assert_eq!(busy, vec![MediaId::Movie(2)]);
    assert_eq!(gather_step(&mut q, &mut c, &mut busy, &cached), GatherStep::Continue);
    assert_eq!(c.requests.len(), 1);
    assert_eq!(busy, vec![MediaId::Movie(2), MediaId::Movie(1)]);
    // A low-priority request does not fit: it goes back and gathering stops.
    assert_eq!(gather_step(&mut q, &mut c, &mut busy, &cached), GatherStep::Stop);
    assert!(q.contains(&MediaId::Movie(3)));
    assert_eq!(q.len(), 1);
    assert_eq!(c.requests.len(), 1);
    let mut empty = FetchQueue::new();
    assert_eq!(gather_step(&mut empty, &mut c, &mut busy, &cached), GatherStep::QueueEmpty);
}
