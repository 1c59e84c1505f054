use ferrex_player::episodes::{
    get_next_episode, get_next_episode_for_series, get_unwatched_count, select_next_episode_for_season,
    select_next_episode_for_series, series_progress_counts, EpisodeSummary, SeasonEpisodes, WatchSummary,
};
use std::collections::HashSet;

fn ep(id: u128, season: u8, episode: u8) -> EpisodeSummary {
    EpisodeSummary { id, season_number: season, episode_number: episode }
}

fn watch(in_progress: &[u128], completed: &[u128]) -> WatchSummary {
    WatchSummary {
        in_progress: in_progress.iter().copied().collect::<HashSet<u128>>(),
        completed: completed.iter().copied().collect::<HashSet<u128>>(),
    }
}

fn series_episodes() -> Vec<EpisodeSummary> {
    // Listed out of order on purpose.
    vec![ep(22, 2, 2), ep(11, 1, 1), ep(21, 2, 1), ep(12, 1, 2)]
}

#[test]
fn without_watch_state_the_first_episode_plays() {
    assert_eq!(select_next_episode_for_series(&series_episodes(), None), Some(11));
    assert_eq!(select_next_episode_for_series(&vec![], None), None);
}

#[test]
fn in_progress_comes_first() {
    let w = watch(&[22, 21], &[11]);
    assert_eq!(select_next_episode_for_series(&series_episodes(), Some(&w)), Some(21));
}

#[test]
fn then_the_first_not_started() {
    let w = watch(&[], &[11, 12]);
    assert_eq!(select_next_episode_for_series(&series_episodes(), Some(&w)), Some(21));
}

#[test]
fn all_watched_falls_back_to_the_first() {
    let w = watch(&[], &[11, 12, 21, 22]);
    assert_eq!(select_next_episode_for_series(&series_episodes(), Some(&w)), Some(11));
    // The resume variant reports nothing left.
    assert_eq!(get_next_episode_for_series(&series_episodes(), Some(&w)), None);
}

#[test]
fn season_order_is_by_episode_number() {
    let eps = vec![ep(3, 1, 3), ep(1, 1, 1), ep(2, 1, 2)];
    let w = watch(&[], &[1]);
    assert_eq!(select_next_episode_for_season(&eps, Some(&w)), Some(2));
}

#[test]
fn unwatched_count_counts_not_completed() {
    let w = watch(&[12], &[11]);
    assert_eq!(get_unwatched_count(&series_episodes(), Some(&w)), 3);
    assert_eq!(get_unwatched_count(&series_episodes(), None), 4);
}

#[test]
fn next_episode_crosses_seasons() {
    let seasons = vec![
        SeasonEpisodes { season_number: 2, episodes: vec![ep(22, 2, 2), ep(21, 2, 1)] },
        SeasonEpisodes { season_number: 1, episodes: vec![ep(12, 1, 2), ep(11, 1, 1)] },
    ];
    assert_eq!(get_next_episode(&seasons, 11), Some(12));
    assert_eq!(get_next_episode(&seasons, 12), Some(21));
    assert_eq!(get_next_episode(&seasons, 22), None);
    assert_eq!(get_next_episode(&seasons, 99), None);
}

#[test]
fn series_progress_counts_completed_episodes() {
    assert_eq!(series_progress_counts(&series_episodes(), None), None);
    let w = watch(&[21], &[11, 12, 99]);
    assert_eq!(series_progress_counts(&series_episodes(), Some(&w)), Some((2, 4)));
    assert_eq!(series_progress_counts(&vec![], Some(&w)), Some((0, 0)));
}
