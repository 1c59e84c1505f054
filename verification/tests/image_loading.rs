use ferrex_player::image_cache::{ImageCacheLimits, UnifiedImageService};
use ferrex_player::image_loading::{
    check_image_body, cleanup_tick, fetch_start, looks_like_supported_image, start_loads, BodyVerdict, FetchStart,
};
use ferrex_player::image_types::{ImageRequest, ImageSize, PosterSize};

fn service(max: usize) -> UnifiedImageService {
    UnifiedImageService::new(max, ImageCacheLimits { ram_max_bytes: 1 << 20, max_retry_attempts: 3, retry_throttle_ms: 1000 })
}

fn poster(id: u128) -> ImageRequest {
    ImageRequest::new(id, ImageSize::Poster(PosterSize::W185))
}

#[test]
fn image_signatures_are_recognised() {
    assert!(looks_like_supported_image(&[0xFF, 0xD8, 0xFF, 0xE0]));
    assert!(looks_like_supported_image(&[0x89, b'P', b'N', b'G', 0x0D, 0x0A, 0x1A, 0x0A]));
    assert!(looks_like_supported_image(b"RIFF\x00\x00\x00\x00WEBPVP8 "));
    assert!(looks_like_supported_image(b"\x00\x00\x00\x1cftypavif"));
    assert!(looks_like_supported_image(b"\x00\x00\x00\x1cftypavis"));
    assert!(!looks_like_supported_image(b"\x00\x00\x00\x1cftypmp42"));
    assert!(!looks_like_supported_image(b"<html>"));
    assert!(!looks_like_supported_image(&[0xFF, 0xD8]));
}

#[test]
fn bodies_are_judged() {
    assert_eq!(check_image_body(&[]), BodyVerdict::Empty);
    assert_eq!(check_image_body(b"not an image"), BodyVerdict::Unsupported);
    assert_eq!(check_image_body(&[0xFF, 0xD8, 0xFF, 0x00]), BodyVerdict::Image);
}

#[test]
fn pool_fills_up_to_the_limit() {
    let mut svc = service(2);
    for id in 1..=3u128 {
        svc.request_image(poster(id), 0);
    }
    let started = start_loads(&mut svc, 0, 5);
    assert_eq!(started.len(), 2);
    for r in &started {
        assert!(svc.is_loading(r));
        assert_eq!(svc.loading_started_at(r), Some(5));
    }
    assert_eq!(svc.queue_len(), 1);
    // Full: nothing more starts.
    assert!(start_loads(&mut svc, 2, 6).is_empty());
}

#[test]
fn pool_respects_tasks_already_in_flight() {
    let mut svc = service(4);
    for id in 1..=4u128 {
        svc.request_image(poster(id), 0);
    }
    let started = start_loads(&mut svc, 3, 1);
    assert_eq!(started.len(), 1);
}

#[test]
fn cleanup_ticks_schedule_disk_cleanup_hourly() {
    let mut svc = service(4);
    assert_eq!(cleanup_tick(&mut svc, 0, 0), (true, 1));
    assert_eq!(cleanup_tick(&mut svc, 1, 0), (false, 2));
    assert_eq!(cleanup_tick(&mut svc, 12, 0), (true, 13));
    assert_eq!(cleanup_tick(&mut svc, u32::MAX, 0), (false, 0));
}

#[test]
fn stale_failed_entries_are_dropped() {
    let mut svc = service(4);
    let r = poster(9);
    svc.mark_loading(&r, 0);
    svc.mark_failed(&r, String::from("boom"), 10);
    let _ = cleanup_tick(&mut svc, 1, 10 + 1_800_001);
    // A stale failed entry no longer blocks a new request.
    assert!(svc.request_image(r, 10 + 1_800_002));
}

#[test]
fn started_loads_leave_the_queue_and_nothing_else_does() {
    let mut svc = service(2);
    for id in 1..=4u128 {
        svc.request_image(poster(id), 0);
    }
    let started = start_loads(&mut svc, 0, 9);
    assert_eq!(started.len(), 2);
    assert_eq!(svc.queue_len(), 2);
    for id in 1..=4u128 {
        let r = poster(id);
        assert!(svc.is_loading(&r) != svc.is_queued(&r));
    }
}

#[test]
fn fetch_starts_from_disk_or_fails_without_server() {
    assert_eq!(fetch_start(true, ""), FetchStart::FromDiskCache);
    assert_eq!(fetch_start(false, ""), FetchStart::Fail(String::from("Server URL is empty")));
    assert_eq!(fetch_start(false, "http://host"), FetchStart::FromServer);
}
