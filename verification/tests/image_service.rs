use ferrex_player::image_cache::{FirstDisplayHint, ImageCacheLimits, LoadState, UnifiedImageService};
use ferrex_player::image_types::{ImageRequest, ImageSize, PosterSize, Priority};

fn limits() -> ImageCacheLimits {
    ImageCacheLimits { ram_max_bytes: 64 * 1024 * 1024, max_retry_attempts: 3, retry_throttle_ms: 1000 }
}

fn poster(id: u128) -> ImageRequest {
    ImageRequest::new(id, ImageSize::Poster(PosterSize::W185))
}

#[test]
fn evicts_least_recently_accessed_until_under_cap() {
    let mut svc = UnifiedImageService::new(4, limits());

    // Prevent eviction while loading so we can arrange access timestamps deterministically.
    svc.set_ram_max_bytes(10_000);

    let a = poster(1001);
    let b = poster(1002);
    let c = poster(1003);

    let per_image = (10u32 * 10u32 * 4u32) as u64; // RGBA

    // Access ages 30 s, 20 s and 10 s before `now`.
    let now: u64 = 100_000;
    svc.mark_loaded(&a, 1, per_image, now - 30_000);
    svc.mark_loaded(&b, 2, per_image, now - 20_000);
    svc.mark_loaded(&c, 3, per_image, now - 10_000);

    // Total = 3 * 400 = 1200 bytes. Cap at 500 => should evict A then B, keeping C.
    svc.set_ram_max_bytes(500);

    assert!(svc.get(&c).is_some());
    assert!(svc.get(&a).is_none());
    assert!(svc.get(&b).is_none());
    assert!(svc.resident_bytes() <= 500);
}

#[test]
fn evicts_one_when_slightly_over_cap() {
    let mut svc = UnifiedImageService::new(4, limits());

    svc.set_ram_max_bytes(10_000);

    let old = poster(2001);
    let new = poster(2002);

    let per_image = (10u32 * 10u32 * 4u32) as u64; // RGBA

    let now: u64 = 100_000;
    svc.mark_loaded(&old, 1, per_image, now - 30_000);
    svc.mark_loaded(&new, 2, per_image, now - 10_000);

    // Total = 800 bytes; cap at 600 => should evict only the oldest entry.
    svc.set_ram_max_bytes(600);

    assert!(svc.get(&new).is_some());
    assert!(svc.get(&old).is_none());
    assert!(svc.resident_bytes() <= 600);
}

#[test]
fn loaded_image_reads_back_its_handle() {
    let mut svc = UnifiedImageService::new(4, limits());
    let r = poster(7);
    svc.mark_loaded(&r, 42, 100, 5);
    assert_eq!(svc.get(&r), Some(42));
    assert_eq!(svc.get_with_load_time(&r), Some((42, Some(5))));
    assert!(svc.is_loaded(&r));
    assert_eq!(svc.resident_bytes(), 100);
}

#[test]
fn requesting_queues_once_and_raises_priority() {
    let mut svc = UnifiedImageService::new(4, limits());
    let r = poster(8).with_priority(Priority::Background);
    assert!(svc.request_image(r, 10));
    assert!(svc.is_queued(&r));
    assert_eq!(svc.queue_len(), 1);
    // Same priority again: nothing to wake.
    assert!(!svc.request_image(r, 11));
    // Higher priority: raised, wake.
    assert!(svc.request_image(r.with_priority(Priority::Visible), 12));
    assert_eq!(svc.queue_len(), 1);
    // Lower priority never lowers it.
    assert!(!svc.request_image(r.with_priority(Priority::Preload), 13));
    let next = svc.get_next_request().expect("a queued request");
    assert_eq!(next.media_id, 8);
    assert_eq!(next.priority, Priority::Visible);
    assert_eq!(svc.queue_len(), 0);
}

#[test]
fn loaded_image_is_not_requested_again() {
    let mut svc = UnifiedImageService::new(4, limits());
    let r = poster(9);
    svc.mark_loaded(&r, 1, 10, 1);
    assert!(!svc.request_image(r, 2));
    assert_eq!(svc.queue_len(), 0);
}

#[test]
fn loading_image_is_not_queued() {
    let mut svc = UnifiedImageService::new(4, limits());
    let r = poster(11);
    svc.mark_loading(&r, 1);
    assert!(svc.is_loading(&r));
    assert_eq!(svc.loading_started_at(&r), Some(1));
    assert!(!svc.request_image(r, 2));
    assert!(!svc.is_queued(&r));
}

#[test]
fn failed_request_is_throttled_then_retried() {
    let mut svc = UnifiedImageService::new(4, limits());
    let r = poster(12);
    svc.mark_loading(&r, 0);
    svc.mark_failed(&r, String::from("connection reset"), 100);
    assert!(!svc.is_loading(&r));
    // Within the 1000 ms throttle: blocked.
    assert!(!svc.request_image(r, 500));
    // After it: queued again.
    assert!(svc.request_image(r, 1200));
}

#[test]
fn no_new_load_when_saturated() {
    let mut svc = UnifiedImageService::new(1, limits());
    let a = poster(21);
    let b = poster(22);
    svc.mark_loading(&a, 0);
    assert!(svc.request_image(b, 1));
    assert!(svc.get_next_request().is_none());
}

#[test]
fn within_cap_nothing_is_evicted() {
    let mut svc = UnifiedImageService::new(4, limits());
    svc.set_ram_max_bytes(1000);
    let a = poster(31);
    svc.mark_loaded(&a, 1, 1000, 1);
    assert!(svc.get(&a).is_some());
    assert_eq!(svc.ram_max_bytes(), 1000);
}

#[test]
fn over_cap_eviction_targets_ninety_percent() {
    let mut svc = UnifiedImageService::new(4, limits());
    svc.set_ram_max_bytes(1000);
    let a = poster(41);
    let b = poster(42);
    svc.mark_loaded(&a, 1, 500, 1);
    svc.mark_loaded(&b, 2, 450, 2);
    // 950 <= 1000: nothing evicted.
    assert!(svc.get(&a).is_some());
    let c = poster(43);
    svc.mark_loaded(&c, 3, 100, 3);
    // 1050 > 1000: evict the oldest (a) -> 550 <= 900.
    assert!(svc.get(&a).is_none());
    assert!(svc.get(&b).is_some());
    assert!(svc.get(&c).is_some());
    assert_eq!(svc.resident_bytes(), 550);
}

#[test]
fn snapshot_lists_loaded_and_queued() {
    let mut svc = UnifiedImageService::new(4, limits());
    let a = poster(51);
    let b = poster(52);
    svc.mark_loaded(&a, 1, 10, 1);
    svc.request_image(b, 2);
    let snap = svc.snapshot_state();
    assert_eq!(snap.loaded.len(), 1);
    assert_eq!(snap.loaded[0].media_id, 51);
    assert_eq!(snap.queued.len(), 1);
    assert_eq!(snap.queued[0].media_id, 52);
    assert!(snap.loading.is_empty());
}

#[test]
fn cancelled_load_leaves_nothing_loading() {
    let mut svc = UnifiedImageService::new(4, limits());
    let a = poster(61);
    svc.mark_loading(&a, 1);
    svc.mark_cancelled(&a);
    assert!(!svc.is_loading(&a));
    assert!(svc.get(&a).is_none());
    let _ = LoadState::Pending;
}

#[test]
fn top_priority_fresh_request_comes_first() {
    let mut svc = UnifiedImageService::new(4, limits());
    svc.request_image(poster(1).with_priority(Priority::Background), 1);
    svc.request_image(poster(2).with_priority(Priority::Visible), 1);
    svc.request_image(poster(3).with_priority(Priority::Preload), 1);
    assert_eq!(svc.get_next_request().map(|r| r.media_id), Some(2));
    assert_eq!(svc.get_next_request().map(|r| r.media_id), Some(3));
    assert_eq!(svc.get_next_request().map(|r| r.media_id), Some(1));
    assert_eq!(svc.queue_len(), 0);
}

#[test]
fn first_display_hint_is_given_once() {
    let mut svc = UnifiedImageService::new(4, limits());
    let r = poster(21);
    svc.mark_loaded(&r, 7, 10, 100);
    assert_eq!(svc.take_loaded_entry(&r, 150), Some((7, Some(100), Some(FirstDisplayHint::FlipOnce))));
    assert_eq!(svc.take_loaded_entry(&r, 160), Some((7, Some(100), None)));
    assert_eq!(svc.take_loaded_entry(&poster(22), 160), None);
}
