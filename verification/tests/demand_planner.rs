use ferrex_player::demand::{build_desired_set, count_cancel, may_cancel_more, DemandContext, DemandRequestKind, MAX_CANCEL_PER_TICK};
use ferrex_player::image_types::{
    EpisodeStillSize, ImageRequest, ImageSize, ImageType, PosterKind, PosterSize, Priority,
};

fn uuid(idx: u128) -> u128 {
    idx
}

#[test]
fn build_desired_set_prioritizes_center_first() {
    let visible = vec![uuid(1), uuid(2), uuid(3), uuid(4)];
    let desired = build_desired_set(
        &visible,
        &Vec::<u128>::new(),
        &Vec::<u128>::new(),
        Some(PosterKind::Movie),
        None,
    );
    let order: Vec<u128> = desired.iter().map(|(req, _)| req.media_id).collect();
    assert_eq!(order, vec![uuid(3), uuid(2), uuid(4), uuid(1)]);
    assert!(desired.iter().all(|(_req, prio)| matches!(prio, Priority::Visible)));
}

#[test]
fn prefetch_duplicate_does_not_downgrade_visible() {
    let id = uuid(10);
    let desired = build_desired_set(
        &vec![id],
        &vec![id],
        &Vec::<u128>::new(),
        Some(PosterKind::Series),
        None,
    );
    assert_eq!(desired.len(), 1);
    assert_eq!(desired[0].1, Priority::Visible);
}

#[test]
fn context_override_supports_episode_stills() {
    let episode_id = uuid(42);
    let mut context = DemandContext::default();
    context.override_request(
        episode_id,
        DemandRequestKind::EpisodeStill { size: EpisodeStillSize::Standard },
    );

    let desired = build_desired_set(
        &Vec::<u128>::new(),
        &vec![episode_id],
        &Vec::<u128>::new(),
        None,
        Some(&context),
    );

    assert_eq!(desired.len(), 1);
    let request = &desired[0].0;
    assert_eq!(request.media_id, episode_id);
    assert_eq!(request.image_type, ImageType::Episode);
    assert_eq!(desired[0].1, Priority::Preload);
}

#[test]
fn background_ids_are_included_with_lowest_priority() {
    let visible = vec![uuid(1)];
    let prefetch = vec![uuid(2)];
    let background = vec![uuid(3), uuid(4)];

    let desired = build_desired_set(&visible, &prefetch, &background, Some(PosterKind::Movie), None);

    let background_entries: Vec<(ImageRequest, Priority)> = desired
        .into_iter()
        .filter(|(req, _)| background.contains(&req.media_id))
        .collect();

    assert_eq!(background_entries.len(), 2);
    assert!(background_entries.iter().all(|(_, prio)| matches!(prio, Priority::Background)));
}

#[test]
fn default_poster_request_uses_w300_of_the_given_kind() {
    let desired = build_desired_set(&vec![7], &vec![], &vec![], Some(PosterKind::Series), None);
    assert_eq!(desired.len(), 1);
    assert_eq!(desired[0].0.size, ImageSize::Poster(PosterSize::W300));
    assert_eq!(desired[0].0.image_type, ImageType::Series);
}

#[test]
fn missing_poster_kind_defaults_to_movie() {
    let desired = build_desired_set(&vec![], &vec![], &vec![5], None, None);
    assert_eq!(desired.len(), 1);
    assert_eq!(desired[0].0.image_type, ImageType::Movie);
    assert_eq!(desired[0].1, Priority::Background);
}

#[test]
fn center_order_of_five_starts_in_the_middle() {
    let order = ferrex_player::demand::center_order(5);
    assert_eq!(order, vec![2, 1, 3, 0, 4]);
}

#[test]
fn background_duplicate_of_prefetch_keeps_preload() {
    let desired = build_desired_set(&vec![], &vec![9], &vec![9, 9], Some(PosterKind::Movie), None);
    assert_eq!(desired.len(), 1);
    assert_eq!(desired[0].1, Priority::Preload);
}

#[test]
fn cancellations_per_tick_are_capped() {
    let mut n = 0usize;
    let mut tries = 0;
    while may_cancel_more(n) {
        n = count_cancel(n, tries % 2 == 0);
        tries += 1;
    }
    assert_eq!(n, MAX_CANCEL_PER_TICK);
    assert_eq!(tries, 11);
    assert_eq!(count_cancel(2, false), 2);
}
