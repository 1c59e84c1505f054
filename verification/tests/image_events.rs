use ferrex_player::image_events::{handle_sse_message, ImageEventState, SseEvent, StreamStep};

#[test]
fn keepalives_and_other_events_yield_nothing() {
    assert!(handle_sse_message("keepalive", true).is_none());
    assert!(handle_sse_message("keep-alive", true).is_none());
    assert!(handle_sse_message("", true).is_none());
    assert!(handle_sse_message("aGVsbG8=", false).is_none());
}

#[test]
fn ready_payload_is_base64_decoded_after_trimming() {
    assert_eq!(handle_sse_message("aGVsbG8=", true), Some(b"hello".to_vec()));
    assert_eq!(handle_sse_message("  aGVsbG8=\n", true), Some(b"hello".to_vec()));
    assert!(handle_sse_message("not base64!", true).is_none());
}

#[test]
fn reconnect_delay_doubles_up_to_thirty_seconds() {
    let mut s = ImageEventState::new();
    let mut delays = Vec::new();
    for r in 0..9u32 {
        s.retry_count = r;
        delays.push(s.reconnect_delay_secs());
    }
    assert_eq!(delays, vec![0, 1, 2, 4, 8, 16, 30, 30, 30]);
}

#[test]
fn errors_retry_until_the_limit() {
    let mut s = ImageEventState::new();
    s.connection_started();
    for i in 1..10u32 {
        assert!(matches!(s.on_event(SseEvent::Error), StreamStep::Continue));
        assert_eq!(s.retry_count, i);
        assert!(!s.connected);
        s.connection_started();
    }
    assert!(matches!(s.on_event(SseEvent::Closed), StreamStep::End));
    assert_eq!(s.retry_count, 10);
}

#[test]
fn open_resets_failures_and_messages_deliver() {
    let mut s = ImageEventState::new();
    s.retry_count = 4;
    assert!(matches!(s.on_event(SseEvent::Open), StreamStep::Continue));
    assert_eq!(s.retry_count, 0);
    match s.on_event(SseEvent::Message { data: String::from("AQID"), is_ready: true }) {
        StreamStep::Deliver(bytes) => assert_eq!(bytes, vec![1, 2, 3]),
        _ => panic!("expected a delivery"),
    }
    assert!(matches!(
        s.on_event(SseEvent::Message { data: String::from("keepalive"), is_ready: true }),
        StreamStep::Continue
    ));
}
