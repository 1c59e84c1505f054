use ferrex_player::pipeline::{
    after_failed_attempt, dominant_color, retry_delay_ms, supports_url, ImagePipelineError, LoadProgress, LoadStage,
    VideoError,
};

#[test]
fn http_loader_supports_http_and_https_only() {
    assert!(supports_url("http://example.com/a.jpg"));
    assert!(supports_url("https://example.com/a.jpg"));
    assert!(supports_url("https://"));
    assert!(!supports_url("ftp://example.com/a.jpg"));
    assert!(!supports_url("file:///tmp/a.jpg"));
    assert!(!supports_url("http:/"));
    assert!(!supports_url(""));
    assert!(!supports_url("HTTP://example.com"));
}

#[test]
fn retry_delay_doubles_from_one_hundred() {
    assert_eq!(retry_delay_ms(0), 100);
    assert_eq!(retry_delay_ms(1), 200);
    assert_eq!(retry_delay_ms(2), 400);
    assert_eq!(retry_delay_ms(10), 102_400);
    assert_eq!(retry_delay_ms(57), 100 * (1u64 << 57));
}

#[test]
fn failed_attempt_retries_until_budget_spent() {
    assert_eq!(after_failed_attempt(0, 3), Some(200));
    assert_eq!(after_failed_attempt(1, 3), Some(400));
    assert_eq!(after_failed_attempt(2, 3), None);
    assert_eq!(after_failed_attempt(0, 1), None);
    assert_eq!(after_failed_attempt(0, 0), None);
    assert_eq!(after_failed_attempt(5, 3), None);
}

#[test]
fn pipeline_error_messages() {
    assert_eq!(ImagePipelineError::Network(String::from("down")).message(), "Network error: down");
    assert_eq!(ImagePipelineError::Decode(String::from("bad")).message(), "Decode error: bad");
    assert_eq!(ImagePipelineError::Processing(String::from("x")).message(), "Processing error: x");
    assert_eq!(ImagePipelineError::Cache(String::from("full")).message(), "Cache error: full");
    assert_eq!(
        ImagePipelineError::UrlResolution(String::from("nope")).message(),
        "URL resolution error: nope"
    );
    assert_eq!(ImagePipelineError::Timeout.message(), "Timeout error");
    assert_eq!(ImagePipelineError::Cancelled.message(), "Cancelled");
}

#[test]
fn video_error_messages() {
    assert_eq!(VideoError::Wayland(String::from("w")).message(), "Wayland video error: w");
    assert_eq!(VideoError::Standard(String::from("s")).message(), "Standard video error: s");
    assert_eq!(VideoError::Unsupported(String::from("u")).message(), "Unsupported operation: u");
}

#[test]
fn load_progress_stages() {
    let s = LoadProgress::starting();
    assert_eq!(s, LoadProgress { downloaded: 0, total: None, stage: LoadStage::Starting });
    let d = LoadProgress::downloading(Some(42));
    assert_eq!(d, LoadProgress { downloaded: 0, total: Some(42), stage: LoadStage::Downloading });
    let c = LoadProgress::complete(7);
    assert_eq!(c, LoadProgress { downloaded: 7, total: Some(7), stage: LoadStage::Complete });
}

#[test]
fn dominant_color_averages_every_tenth_opaque_pixel() {
    // Pixels 0, 10 and 20 are sampled; 20 is transparent and skipped.
    let mut px = vec![(0u8, 0u8, 0u8, 0u8); 21];
    px[0] = (10, 20, 30, 255);
    px[10] = (21, 41, 61, 200);
    px[20] = (255, 255, 255, 100);
    px[5] = (255, 255, 255, 255);
    assert_eq!(dominant_color(&px), (15, 30, 45));
}

#[test]
fn dominant_color_falls_back_to_grey() {
    assert_eq!(dominant_color(&vec![]), (128, 128, 128));
    assert_eq!(dominant_color(&vec![(1, 2, 3, 128); 30]), (128, 128, 128));
    assert_eq!(dominant_color(&vec![(255, 255, 255, 255); 30]), (255, 255, 255));
}
