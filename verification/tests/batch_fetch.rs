use ferrex_player::batch::{
    batch_failure_message, create_batches, items_needing_metadata, verify_metadata_fetch, BatchConfig, BatchFetchResult, MediaId,
    MediaRefSummary, VerificationFailure,
};

fn movies(n: u128) -> Vec<MediaId> {
    (0..n).map(MediaId::Movie).collect()
}

#[test]
fn batch_config_defaults() {
    let c = BatchConfig::default();
    assert!(!c.is_initial_load);
    assert!(!c.preserve_order);
    assert_eq!(c.max_batch_size, 1000);
    assert!(c.use_background_thread);
}

#[test]
fn batches_are_thirty_then_hundreds() {
    let ids = movies(250);
    let batches = create_batches(&ids);
    let sizes: Vec<usize> = batches.iter().map(|b| b.len()).collect();
    assert_eq!(sizes, vec![30, 100, 100, 20]);
    let joined: Vec<MediaId> = batches.concat();
    assert_eq!(joined, ids);
}

#[test]
fn small_and_empty_inputs() {
    assert!(create_batches(&Vec::new()).is_empty());
    let sizes: Vec<usize> = create_batches(&movies(30)).iter().map(|b| b.len()).collect();
    assert_eq!(sizes, vec![30]);
    let sizes: Vec<usize> = create_batches(&movies(31)).iter().map(|b| b.len()).collect();
    assert_eq!(sizes, vec![30, 1]);
    let sizes: Vec<usize> = create_batches(&movies(130)).iter().map(|b| b.len()).collect();
    assert_eq!(sizes, vec![30, 100]);
}

#[test]
fn only_movies_and_series_needing_details_are_fetched() {
    let refs = vec![
        MediaRefSummary { id: MediaId::Movie(1), needs_details: true },
        MediaRefSummary { id: MediaId::Movie(2), needs_details: false },
        MediaRefSummary { id: MediaId::Season(3), needs_details: true },
        MediaRefSummary { id: MediaId::Series(4), needs_details: true },
        MediaRefSummary { id: MediaId::Episode(5), needs_details: true },
    ];
    assert_eq!(items_needing_metadata(&refs), vec![MediaId::Movie(1), MediaId::Series(4)]);
}

#[test]
fn verification_thresholds() {
    assert_eq!(verify_metadata_fetch(&vec![]), Err(VerificationFailure::NoItems));
    // Exactly 5% still endpoints passes.
    let mut v = vec![Some(false); 100];
    for x in v.iter_mut().take(5) {
        *x = Some(true);
    }
    assert_eq!(verify_metadata_fetch(&v), Ok(()));
    v[5] = Some(true);
    assert_eq!(verify_metadata_fetch(&v), Err(VerificationFailure::Endpoints { still_endpoints: 6, total: 100 }));
    let mut w = vec![Some(false); 100];
    w[0] = None;
    assert_eq!(verify_metadata_fetch(&w), Err(VerificationFailure::Missing { not_found: 1, total: 100 }));
    let mut u = vec![Some(true); 10];
    u[0] = None;
    assert_eq!(
        verify_metadata_fetch(&u),
        Err(VerificationFailure::EndpointsAndMissing { still_endpoints: 9, not_found: 1, total: 10 })
    );
    // One missing in two thousand is within 0.1%.
    let mut big = vec![Some(false); 2000];
    big[7] = None;
    assert_eq!(verify_metadata_fetch(&big), Ok(()));
}

#[test]
fn run_accounting() {
    let refs: Vec<MediaRefSummary> =
        (0..40).map(|i| MediaRefSummary { id: MediaId::Movie(i), needs_details: true }).collect();
    let (mut result, batches) = BatchFetchResult::start(&refs);
    assert_eq!(result.items_needing_metadata, 40);
    assert_eq!(result.batches_processed, 2);
    assert_eq!(result.batch_sizes, vec![30, 10]);
    assert_eq!(batches.len(), 2);
    assert!(!result.verification_passed);
    result.record_batch_response(29, vec![String::from("one failed")]);
    result.record_batch_failure(10, String::from("batch 1 failed"));
    assert_eq!(result.items_successfully_fetched, 29);
    assert_eq!(result.items_failed, 11);
    assert_eq!(result.errors.len(), 2);
    result.record_verification(Ok(()), String::new(), 12);
    assert!(result.verification_passed);
    assert_eq!(result.fetch_duration_ms, 12);
    assert!(!result.is_fully_successful());
}

#[test]
fn nothing_to_fetch_is_verified_and_fully_successful() {
    let refs = vec![MediaRefSummary { id: MediaId::Movie(1), needs_details: false }];
    let (result, batches) = BatchFetchResult::start(&refs);
    assert!(batches.is_empty());
    assert!(result.verification_passed);
    assert!(result.is_fully_successful());
}

#[test]
fn verification_failures_are_worded() {
    assert_eq!(VerificationFailure::NoItems.message(""), "Verification failed: No items to verify");
    assert_eq!(
        VerificationFailure::Endpoints { still_endpoints: 10, total: 100 }.message("0.1"),
        "Verification failed: Verification failed: 10 out of 100 items Endpoint, exceeding the 5% threshold at 0.1"
    );
    assert_eq!(
        VerificationFailure::EndpointsAndMissing { still_endpoints: 6, not_found: 2, total: 100 }.message("0.06"),
        "Verification failed: Verification failed: 6 out of 100 items still have Endpoint, exceeding the 5% threshold at 0.06, additionally 2 items not found in MediaStore"
    );
    assert_eq!(
        VerificationFailure::Missing { not_found: 3, total: 1000 }.message(""),
        "Verification failed: Verification failed: 3 out of 1000 items not found in MediaStore"
    );
    assert_eq!(batch_failure_message(2, "timeout"), "Batch 2 failed: timeout");
}
