use ferrex_player::batch::MediaId;
use ferrex_player::media_events::{apply_media_event, parse_deleted_id, LibraryMedia, MediaEventKind, ScanState};
use ferrex_player::media_store::{MediaStore, MediaSummary};

fn movie(id: u128, library: u128) -> MediaSummary {
    MediaSummary { id: MediaId::Movie(id), library_id: library, series_id: 0, season_id: 0, has_details: true, sort_key: id as u64 }
}

fn season(id: u128, library: u128) -> MediaSummary {
    MediaSummary { id: MediaId::Season(id), library_id: library, series_id: 3, season_id: 0, has_details: false, sort_key: 0 }
}

fn scan() -> ScanState {
    ScanState { active_scan: Some(7), scanning: true, progress: None, error_message: None }
}

#[test]
fn added_items_go_to_the_store_and_the_current_library() {
    let mut store: MediaStore<u8> = MediaStore::new();
    let mut libs = vec![LibraryMedia { id: 1, media: None }, LibraryMedia { id: 2, media: Some(vec![]) }];
    let mut sc = scan();
    apply_media_event(&mut store, &mut libs, &mut sc, Some(1), MediaEventKind::Added(movie(10, 1), 1));
    apply_media_event(&mut store, &mut libs, &mut sc, Some(1), MediaEventKind::Added(season(20, 1), 2));
    apply_media_event(&mut store, &mut libs, &mut sc, Some(9), MediaEventKind::Added(movie(11, 1), 3));
    assert_eq!(store.len(), 3);
    assert_eq!(libs[0].media, Some(vec![MediaId::Movie(10)]));
    assert_eq!(libs[1].media, Some(vec![]));
    apply_media_event(&mut store, &mut libs, &mut sc, Some(1), MediaEventKind::Updated(movie(10, 1), 5));
    assert_eq!(store.get(&MediaId::Movie(10)), Some(&5));
    assert_eq!(libs[0].media, Some(vec![MediaId::Movie(10)]));
}

#[test]
fn deleted_items_leave_store_and_every_library() {
    let mut store: MediaStore<u8> = MediaStore::new();
    let mut libs = vec![
        LibraryMedia { id: 1, media: Some(vec![MediaId::Movie(10), MediaId::Movie(12)]) },
        LibraryMedia { id: 2, media: Some(vec![MediaId::Movie(10)]) },
        LibraryMedia { id: 3, media: None },
    ];
    let mut sc = scan();
    apply_media_event(&mut store, &mut libs, &mut sc, None, MediaEventKind::Added(movie(10, 1), 1));
    apply_media_event(&mut store, &mut libs, &mut sc, None, MediaEventKind::Deleted(MediaId::Movie(10)));
    assert!(store.get(&MediaId::Movie(10)).is_none());
    assert_eq!(libs[0].media, Some(vec![MediaId::Movie(12)]));
    assert_eq!(libs[1].media, Some(vec![]));
    assert_eq!(libs[2].media, None);
}

#[test]
fn scan_events_touch_only_the_followed_scan() {
    let mut store: MediaStore<u8> = MediaStore::new();
    let mut libs: Vec<LibraryMedia> = vec![];
    let mut sc = scan();
    apply_media_event(&mut store, &mut libs, &mut sc, None, MediaEventKind::ScanProgress(8, 1, 2));
    assert_eq!(sc.progress, None);
    apply_media_event(&mut store, &mut libs, &mut sc, None, MediaEventKind::ScanProgress(7, 3, 10));
    assert_eq!(sc.progress, Some((3, 10)));
    apply_media_event(&mut store, &mut libs, &mut sc, None, MediaEventKind::ScanFailed(7, String::from("disk")));
    assert_eq!(sc.active_scan, None);
    assert!(!sc.scanning);
    assert_eq!(sc.error_message, Some(String::from("Scan failed: disk")));
}

#[test]
fn deleted_ids_are_parsed_by_prefix() {
    let uuid = "0000000a-0000-0000-0000-0000000000ff";
    let expect: u128 = (0xa_u128 << 96) | 0xff;
    assert_eq!(parse_deleted_id(&format!("movie:{}", uuid)), Some(MediaId::Movie(expect)));
    assert_eq!(parse_deleted_id(&format!("series:{}", uuid)), Some(MediaId::Series(expect)));
    assert_eq!(parse_deleted_id(&format!("season:{}", uuid)), Some(MediaId::Season(expect)));
    assert_eq!(parse_deleted_id(&format!("episode:{}", "FFFFFFFF-FFFF-FFFF-FFFF-FFFFFFFFFFFF")), Some(MediaId::Episode(u128::MAX)));
    assert_eq!(parse_deleted_id(uuid), None);
    assert_eq!(parse_deleted_id("movie:not-a-uuid"), None);
    assert_eq!(parse_deleted_id("movie:0000000a00000000000000000000000000ff"), None);
    assert_eq!(parse_deleted_id(""), None);
}
