use ferrex_player::batch::MediaId;
use ferrex_player::media_store::{
    progress_refresh, sort_key, ChangeType, KeyedSort, MediaStore, MediaStoreNotifier, MediaSummary, MediaType, SortFields,
};

fn movie(id: u128, library: u128, details: bool) -> MediaSummary {
    MediaSummary { id: MediaId::Movie(id), library_id: library, series_id: 0, season_id: 0, has_details: details, sort_key: id as u64 }
}

fn series(id: u128, library: u128) -> MediaSummary {
    MediaSummary { id: MediaId::Series(id), library_id: library, series_id: 0, season_id: 0, has_details: true, sort_key: id as u64 }
}

fn season(id: u128, series_id: u128, library: u128) -> MediaSummary {
    MediaSummary { id: MediaId::Season(id), library_id: library, series_id, season_id: 0, has_details: false, sort_key: 0 }
}

fn episode(id: u128, series_id: u128, season_id: u128, file_library: u128) -> MediaSummary {
    MediaSummary { id: MediaId::Episode(id), library_id: file_library, series_id, season_id, has_details: false, sort_key: 0 }
}

#[test]
fn upsert_then_get_and_events() {
    let mut store: MediaStore<String> = MediaStore::new();
    assert!(store.is_empty());
    let id = store.upsert(movie(1, 7, false), String::from("m1"));
    assert_eq!(id, MediaId::Movie(1));
    assert_eq!(store.get(&id), Some(&String::from("m1")));
    assert_eq!(store.len(), 1);
    store.upsert(movie(1, 7, true), String::from("m1 details"));
    assert_eq!(store.get(&id), Some(&String::from("m1 details")));
    let (events, batch_done) = store.take_notifications();
    assert!(!batch_done);
    assert_eq!(events.len(), 2);
    assert_eq!(events[0].change_type, ChangeType::Added);
    assert_eq!(events[1].change_type, ChangeType::Updated);
    assert_eq!(events[1].media_type, MediaType::Movie);
    assert_eq!(events[1].library_id, 7);
}

#[test]
fn details_are_never_replaced_by_an_endpoint() {
    let mut store: MediaStore<String> = MediaStore::new();
    store.upsert(movie(1, 7, true), String::from("full"));
    store.take_notifications();
    store.upsert(movie(1, 7, false), String::from("endpoint"));
    assert_eq!(store.get(&MediaId::Movie(1)), Some(&String::from("full")));
    let (events, _) = store.take_notifications();
    assert!(events.is_empty());
}

#[test]
fn display_order_comes_from_the_caller() {
    let mut store: MediaStore<u32> = MediaStore::new();
    store.upsert(movie(1, 7, true), 1);
    store.upsert(movie(2, 8, true), 2);
    store.upsert(movie(3, 7, true), 3);
    let ids = store.movie_ids();
    assert_eq!(ids, vec![MediaId::Movie(1), MediaId::Movie(2), MediaId::Movie(3)]);
    assert!(store.set_sorted_movie_ids(vec![MediaId::Movie(3), MediaId::Movie(3), MediaId::Movie(1), MediaId::Movie(2)]));
    let all: Vec<u32> = store.get_movies(None).into_iter().copied().collect();
    assert_eq!(all, vec![3, 1, 2]);
    let lib7: Vec<u32> = store.get_movies(Some(7)).into_iter().copied().collect();
    assert_eq!(lib7, vec![3, 1]);
    assert_eq!(store.get_all_movies().len(), 3);
}

#[test]
fn batch_defers_orphan_episodes_until_the_end() {
    let mut store: MediaStore<&'static str> = MediaStore::new();
    store.begin_batch();
    store.upsert(episode(100, 10, 20, 99), "ep");
    assert_eq!(store.len(), 0);
    store.upsert(series(10, 5), "series");
    store.upsert(season(20, 10, 5), "season");
    store.end_batch();
    assert_eq!(store.len(), 3);
    // The episode took its series' library.
    let (events, batch_done) = store.take_notifications();
    assert!(batch_done);
    assert_eq!(events.len(), 3);
    assert_eq!(events[0].media_id, MediaId::Episode(100));
    assert_eq!(events[0].library_id, 5);
    assert_eq!(events[1].media_id, MediaId::Series(10));
    assert_eq!(events[2].media_id, MediaId::Season(20));
    assert_eq!(store.get_seasons(10), vec![&"season"]);
    assert_eq!(store.get_episodes(20), vec![&"ep"]);
}

#[test]
fn episode_outside_batch_uses_its_file_library() {
    let mut store: MediaStore<u8> = MediaStore::new();
    store.upsert(episode(100, 10, 20, 99), 1);
    let (events, _) = store.take_notifications();
    assert_eq!(events[0].library_id, 99);
    assert_eq!(store.get_library_id(&MediaId::Episode(100)), Some(99));
}

#[test]
fn bulk_upsert_puts_series_first() {
    let mut store: MediaStore<u8> = MediaStore::new();
    let ids = store.bulk_upsert(vec![
        (episode(100, 10, 20, 99), 1),
        (series(10, 5), 2),
        (movie(1, 5, false), 3),
    ]);
    assert_eq!(ids, vec![MediaId::Series(10), MediaId::Episode(100), MediaId::Movie(1)]);
    assert!(!store.is_batch_mode());
    let (events, done) = store.take_notifications();
    assert!(done);
    assert_eq!(events.len(), 3);
    assert_eq!(events[1].library_id, 5);
}

#[test]
fn remove_drops_item_and_emits_event() {
    let mut store: MediaStore<u8> = MediaStore::new();
    store.upsert(series(10, 5), 1);
    assert!(store.set_sorted_series_ids(vec![MediaId::Series(10)]));
    store.take_notifications();
    assert_eq!(store.remove(&MediaId::Series(10)), Some(1));
    assert_eq!(store.remove(&MediaId::Series(10)), None);
    assert!(store.get_series(None).is_empty());
    let (events, _) = store.take_notifications();
    assert_eq!(events.len(), 1);
    assert_eq!(events[0].change_type, ChangeType::Removed);
}

#[test]
fn clearing_a_library_keeps_the_others() {
    let mut store: MediaStore<u8> = MediaStore::new();
    store.upsert(movie(1, 7, true), 1);
    store.upsert(movie(2, 8, true), 2);
    assert!(store.set_sorted_movie_ids(vec![MediaId::Movie(1), MediaId::Movie(2)]));
    assert!(store.library_has_sortable_media(7));
    store.clear_library(7);
    assert_eq!(store.len(), 1);
    assert!(store.get(&MediaId::Movie(1)).is_none());
    let left: Vec<u8> = store.get_movies(None).into_iter().copied().collect();
    assert_eq!(left, vec![2]);
    assert!(!store.library_has_sortable_media(7));
    store.clear();
    assert!(store.is_empty());
}

#[test]
fn items_without_library_are_not_indexed() {
    let mut store: MediaStore<u8> = MediaStore::new();
    store.upsert(movie(1, 0, true), 1);
    assert!(store.set_sorted_movie_ids(vec![MediaId::Movie(1)]));
    assert!(store.get_movies(Some(0)).is_empty());
    assert_eq!(store.get_movies(None).len(), 1);
}

#[test]
fn notifier_debounces_refreshes() {
    let mut n = MediaStoreNotifier::new(1_000);
    assert!(!n.should_refresh(5_000));
    n.mark_needs_refresh();
    assert!(!n.should_refresh(1_050));
    assert!(n.should_refresh(1_100));
    assert!(!n.should_refresh(2_000));
    n.on_batch_complete();
    assert!(n.should_refresh(2_000));
}

#[test]
fn repeated_upserts_in_a_batch_leave_each_id_once() {
    let mut store: MediaStore<u8> = MediaStore::new();
    store.bulk_upsert(vec![(movie(7, 1, true), 1), (movie(7, 1, true), 2), (series(3, 1), 3), (series(3, 1), 4)]);
    let movies: Vec<u8> = store.get_movies(None).into_iter().copied().collect();
    assert_eq!(movies, vec![2]);
    assert_eq!(store.get_series(None).len(), 1);

    let mut store: MediaStore<u8> = MediaStore::new();
    store.begin_batch();
    store.upsert(movie(9, 1, true), 1);
    store.upsert(movie(9, 1, true), 2);
    store.end_batch();
    assert_eq!(store.get_movies(None).len(), 1);
}

#[test]
fn orders_that_miss_or_repeat_ids_are_refused() {
    let mut store: MediaStore<u8> = MediaStore::new();
    store.upsert(movie(1, 7, true), 1);
    store.upsert(movie(2, 7, true), 2);
    assert!(!store.set_sorted_movie_ids(vec![MediaId::Movie(1)]));
    assert!(!store.set_sorted_movie_ids(vec![MediaId::Movie(2), MediaId::Movie(1), MediaId::Movie(2)]));
    assert!(!store.set_sorted_movie_ids(vec![MediaId::Movie(1), MediaId::Movie(2), MediaId::Movie(3)]));
    assert!(store.set_sorted_movie_ids(vec![MediaId::Movie(2), MediaId::Movie(1)]));
    let movies: Vec<u8> = store.get_movies(None).into_iter().copied().collect();
    assert_eq!(movies, vec![2, 1]);
}

#[test]
fn removing_a_fresh_upsert_restores_the_lists() {
    let mut store: MediaStore<u8> = MediaStore::new();
    store.upsert(movie(1, 7, true), 1);
    store.upsert(movie(5, 7, true), 5);
    assert_eq!(store.remove(&MediaId::Movie(5)), Some(5));
    let movies: Vec<u8> = store.get_movies(None).into_iter().copied().collect();
    assert_eq!(movies, vec![1]);
    assert_eq!(store.len(), 1);
}

#[test]
fn lists_come_back_sorted_by_key() {
    let mut store: MediaStore<u8> = MediaStore::new();
    let keyed = |id: u128, key: u64| MediaSummary {
        id: MediaId::Movie(id), library_id: 1, series_id: 0, season_id: 0, has_details: true, sort_key: key,
    };
    store.upsert(keyed(1, 30), 1);
    store.upsert(keyed(2, 10), 2);
    store.upsert(keyed(3, 20), 3);
    let order: Vec<u8> = store.get_movies(None).into_iter().copied().collect();
    assert_eq!(order, vec![2, 3, 1]);
    // Ties go by id; a batch is sorted when it ends.
    store.begin_batch();
    store.upsert(keyed(5, 20), 5);
    store.upsert(keyed(4, 20), 4);
    store.upsert(keyed(4, 20), 4);
    store.end_batch();
    let order: Vec<u8> = store.get_movies(None).into_iter().copied().collect();
    assert_eq!(order, vec![2, 3, 4, 5, 1]);
}

#[test]
fn a_fresh_store_has_room() {
    let store: MediaStore<u8> = MediaStore::new();
    assert!(store.has_room_for_one());
}

#[test]
fn file_size_and_resolution_keys_order_the_lists() {
    let small = SortFields { file_size: 100, height: Some(720) };
    let big = SortFields { file_size: 900, height: None };
    assert_eq!(sort_key(KeyedSort::FileSize, false, &small), 100);
    assert_eq!(sort_key(KeyedSort::FileSize, true, &small), u64::MAX - 100);
    assert_eq!(sort_key(KeyedSort::Resolution, false, &big), 0);
    assert_eq!(sort_key(KeyedSort::Resolution, false, &small), 720);
    let mut store: MediaStore<u8> = MediaStore::new();
    for (id, f) in [(1u128, small), (2u128, big)] {
        let key = sort_key(KeyedSort::FileSize, true, &f);
        store.upsert(MediaSummary { id: MediaId::Movie(id), library_id: 1, series_id: 0, season_id: 0, has_details: true, sort_key: key }, id as u8);
    }
    let order: Vec<u8> = store.get_movies(None).into_iter().copied().collect();
    assert_eq!(order, vec![2, 1]);
}

#[test]
fn progress_refreshes_are_debounced_unless_status_changes() {
    assert_eq!(progress_refresh(false, false, true, true, false, None, 10), (true, Some(10)));
    assert_eq!(progress_refresh(false, false, true, true, false, Some(10), 1500), (false, Some(10)));
    assert_eq!(progress_refresh(false, false, true, true, false, Some(10), 2010), (false, Some(10)));
    assert_eq!(progress_refresh(false, false, true, true, false, Some(10), 2011), (true, Some(2011)));
    assert_eq!(progress_refresh(false, true, true, false, false, Some(10), 20), (true, Some(20)));
    assert_eq!(progress_refresh(false, false, true, true, true, Some(10), 20), (true, Some(20)));
}
