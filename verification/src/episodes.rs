//! Choosing which episode of a series or season to play: the first one in
//! progress, else the first one not yet watched, else the first one; the
//! episode after a given one; and how many are left unwatched.
use vstd::prelude::*;
use std::collections::HashSet;

verus! {

broadcast use vstd::std_specs::hash::group_hash_axioms;

/// What episode selection reads of an episode.
#[derive(Debug, Clone, Copy, PartialEq, Eq, Structural)]
pub struct EpisodeSummary {
    pub id: u128,
    pub season_number: u8,
    pub episode_number: u8,
}

/// What episode selection reads of the user's watch state: the episodes in
/// progress and those completed.
#[derive(Debug)]
pub struct WatchSummary {
    pub in_progress: HashSet<u128>,
    pub completed: HashSet<u128>,
}

/// The sets of a watch state.
pub open spec fn watch_view(w: Option<&WatchSummary>) -> Option<(Set<u128>, Set<u128>)> {
    match w {
        Some(x) => Some((x.in_progress@, x.completed@)),
        None => None,
    }
}

/// Which episodes a search looks for.
#[derive(Debug, Clone, Copy, PartialEq, Eq, Structural)]
pub enum Pick {
    /// Any episode.
    Any,
    /// An episode in progress.
    InProgress,
    /// An episode neither in progress nor completed.
    NotStarted,
    /// An episode not completed.
    NotCompleted,
}

/// Whether episode `e` is one that `p` looks for, given watch sets `(in progress, completed)`.
pub open spec fn picks(p: Pick, w: (Set<u128>, Set<u128>), e: EpisodeSummary) -> bool {
    match p {
        Pick::Any => true,
        Pick::InProgress => w.0.contains(e.id),
        Pick::NotStarted => !w.0.contains(e.id) && !w.1.contains(e.id),
        Pick::NotCompleted => !w.1.contains(e.id),
    }
}

/// Whether episode `i` comes before episode `j` of `eps`: by season and
/// episode number (or episode number alone), then by position.
pub open spec fn comes_before(eps: Seq<EpisodeSummary>, i: int, j: int, by_season: bool) -> bool {
    let a = eps[i];
    let b = eps[j];
    if by_season && a.season_number != b.season_number {
        a.season_number < b.season_number
    } else if a.episode_number != b.episode_number {
        a.episode_number < b.episode_number
    } else {
        i < j
    }
}

/// Whether `i` is the first episode of `eps`, in playing order, that `p` looks for.
pub open spec fn is_first(eps: Seq<EpisodeSummary>, i: int, by_season: bool, p: Pick, w: (Set<u128>, Set<u128>)) -> bool {
    &&& 0 <= i < eps.len()
    &&& picks(p, w, eps[i])
    &&& forall|j: int| 0 <= j < eps.len() && j != i && #[trigger] picks(p, w, eps[j]) ==> comes_before(eps, i, j, by_season)
}

/// Whether some episode of `eps` is one that `p` looks for.
pub open spec fn any_picked(eps: Seq<EpisodeSummary>, p: Pick, w: (Set<u128>, Set<u128>)) -> bool {
    exists|j: int| 0 <= j < eps.len() && #[trigger] picks(p, w, eps[j])
}

/// `r` is the id of the first episode that `p` looks for.
pub open spec fn first_id(eps: Seq<EpisodeSummary>, r: Option<u128>, by_season: bool, p: Pick, w: (Set<u128>, Set<u128>)) -> bool {
    exists|i: int| is_first(eps, i, by_season, p, w) && r == Some(eps[i].id)
}

/// No watch state: nothing in progress, nothing completed.
pub open spec fn no_watch() -> (Set<u128>, Set<u128>) {
    (Set::empty(), Set::empty())
}

fn picks_exec(p: Pick, w: Option<&WatchSummary>, e: &EpisodeSummary) -> (b: bool)
    ensures
        b == picks(p, match watch_view(w) { Some(x) => x, None => no_watch() }, *e),
{
    match p {
        Pick::Any => true,
        Pick::InProgress => match w {
            Some(x) => x.in_progress.contains(&e.id),
            None => false,
        },
        Pick::NotStarted => match w {
            Some(x) => !x.in_progress.contains(&e.id) && !x.completed.contains(&e.id),
            None => true,
        },
        Pick::NotCompleted => match w {
            Some(x) => !x.completed.contains(&e.id),
            None => true,
        },
    }
}

fn comes_before_exec(eps: &Vec<EpisodeSummary>, i: usize, j: usize, by_season: bool) -> (b: bool)
    requires
        i < eps@.len(),
        j < eps@.len(),
    ensures
        b == comes_before(eps@, i as int, j as int, by_season),
{
    let a = eps[i];
    let c = eps[j];
    if by_season && a.season_number != c.season_number {
        a.season_number < c.season_number
    } else if a.episode_number != c.episode_number {
        a.episode_number < c.episode_number
    } else {
        i < j
    }
}

/// Index of the first episode, in playing order, that `p` looks for.
fn first_index(eps: &Vec<EpisodeSummary>, by_season: bool, p: Pick, w: Option<&WatchSummary>) -> (r: Option<usize>)
    ensures
        match r {
            Some(i) => is_first(eps@, i as int, by_season, p, match watch_view(w) { Some(x) => x, None => no_watch() }),
            None => !any_picked(eps@, p, match watch_view(w) { Some(x) => x, None => no_watch() }),
        },
{
    let ghost wv = match watch_view(w) { Some(x) => x, None => no_watch() };
    let mut best: Option<usize> = None;
    let mut i: usize = 0;
    while i < eps.len()
        invariant
            i <= eps@.len(),
            wv == match watch_view(w) { Some(x) => x, None => no_watch() },
            match best {
                None => forall|j: int| 0 <= j < i ==> !#[trigger] picks(p, wv, eps@[j]),
                Some(b) => {
                    &&& b < i
                    &&& picks(p, wv, eps@[b as int])
                    &&& forall|j: int| 0 <= j < i && j != b && #[trigger] picks(p, wv, eps@[j]) ==> comes_before(eps@, b as int, j, by_season)
                },
            },
        decreases eps@.len() - i,
    {
        if picks_exec(p, w, &eps[i]) {
            match best {
                None => {
                    best = Some(i);
                },
                Some(b) => {
                    if comes_before_exec(eps, i, b, by_season) {
                        best = Some(i);
                    }
                },
            }
        }
        i += 1;
    }
    proof {
        if best is None {
            assert forall|j: int| 0 <= j < eps@.len() implies !#[trigger] picks(p, wv, eps@[j]) by {}
        }
    }
    best
}

/// The episode of a series to play: the first in progress, else the first
/// neither in progress nor completed, else the first; without a watch
/// state, the first. Playing order is by season, then episode number, then
/// position. `None` when there are no episodes.
pub fn select_next_episode_for_series(episodes: &Vec<EpisodeSummary>, watch: Option<&WatchSummary>) -> (r: Option<u128>)
    ensures
        episodes@.len() == 0 ==> r is None,
        episodes@.len() > 0 ==> match watch_view(watch) {
            None => first_id(episodes@, r, true, Pick::Any, no_watch()),
            Some(w) => if any_picked(episodes@, Pick::InProgress, w) {
                first_id(episodes@, r, true, Pick::InProgress, w)
            } else if any_picked(episodes@, Pick::NotStarted, w) {
                first_id(episodes@, r, true, Pick::NotStarted, w)
            } else {
                first_id(episodes@, r, true, Pick::Any, w)
            },
        },
{
    select_next(episodes, watch, true)
}

/// The episode of a season to play, as for a series but ordered by episode
/// number (then position) alone.
pub fn select_next_episode_for_season(episodes: &Vec<EpisodeSummary>, watch: Option<&WatchSummary>) -> (r: Option<u128>)
    ensures
        episodes@.len() == 0 ==> r is None,
        episodes@.len() > 0 ==> match watch_view(watch) {
            None => first_id(episodes@, r, false, Pick::Any, no_watch()),
            Some(w) => if any_picked(episodes@, Pick::InProgress, w) {
                first_id(episodes@, r, false, Pick::InProgress, w)
            } else if any_picked(episodes@, Pick::NotStarted, w) {
                first_id(episodes@, r, false, Pick::NotStarted, w)
            } else {
                first_id(episodes@, r, false, Pick::Any, w)
            },
        },
{
    select_next(episodes, watch, false)
}

fn select_next(episodes: &Vec<EpisodeSummary>, watch: Option<&WatchSummary>, by_season: bool) -> (r: Option<u128>)
    ensures
        episodes@.len() == 0 ==> r is None,
        episodes@.len() > 0 ==> match watch_view(watch) {
            None => first_id(episodes@, r, by_season, Pick::Any, no_watch()),
            Some(w) => if any_picked(episodes@, Pick::InProgress, w) {
                first_id(episodes@, r, by_season, Pick::InProgress, w)
            } else if any_picked(episodes@, Pick::NotStarted, w) {
                first_id(episodes@, r, by_season, Pick::NotStarted, w)
            } else {
                first_id(episodes@, r, by_season, Pick::Any, w)
            },
        },
{
    if episodes.len() == 0 {
        return None;
    }
    proof {
        assert(picks(Pick::Any, no_watch(), episodes@[0]));
    }
    if watch.is_some() {
        match first_index(episodes, by_season, Pick::InProgress, watch) {
            Some(i) => {
                return Some(episodes[i].id);
            },
            None => {},
        }
        match first_index(episodes, by_season, Pick::NotStarted, watch) {
            Some(i) => {
                return Some(episodes[i].id);
            },
            None => {},
        }
    }
    match first_index(episodes, by_season, Pick::Any, watch) {
        Some(i) => Some(episodes[i].id),
        None => {
            proof {
                let wv = match watch_view(watch) { Some(x) => x, None => no_watch() };
                assert(picks(Pick::Any, wv, episodes@[0]));
            }
            None
        },
    }
}

/// The episode to resume in a series: the first in progress, else the first
/// not completed; `None` when every episode is completed (or there are
/// none). Without a watch state, the first episode.
pub fn get_next_episode_for_series(episodes: &Vec<EpisodeSummary>, watch: Option<&WatchSummary>) -> (r: Option<u128>)
    ensures
        episodes@.len() == 0 ==> r is None,
        episodes@.len() > 0 ==> match watch_view(watch) {
            None => first_id(episodes@, r, true, Pick::Any, no_watch()),
            Some(w) => if any_picked(episodes@, Pick::InProgress, w) {
                first_id(episodes@, r, true, Pick::InProgress, w)
            } else if any_picked(episodes@, Pick::NotCompleted, w) {
                first_id(episodes@, r, true, Pick::NotCompleted, w)
            } else {
                r is None
            },
        },
{
    if episodes.len() == 0 {
        return None;
    }
    match watch {
        None => {
            proof {
                assert(picks(Pick::Any, no_watch(), episodes@[0]));
            }
            match first_index(episodes, true, Pick::Any, watch) {
                Some(i) => Some(episodes[i].id),
                None => None,
            }
        },
        Some(_) => {
            match first_index(episodes, true, Pick::InProgress, watch) {
                Some(i) => {
                    return Some(episodes[i].id);
                },
                None => {},
            }
            match first_index(episodes, true, Pick::NotCompleted, watch) {
                Some(i) => Some(episodes[i].id),
                None => None,
            }
        },
    }
}

/// Number of episodes `p` looks for.
pub open spec fn count_picked(eps: Seq<EpisodeSummary>, p: Pick, w: (Set<u128>, Set<u128>)) -> nat
    decreases eps.len(),
{
    if eps.len() == 0 {
        0
    } else {
        count_picked(eps.drop_last(), p, w) + if picks(p, w, eps.last()) { 1nat } else { 0nat }
    }
}

proof fn lemma_count_picked_le(eps: Seq<EpisodeSummary>, p: Pick, w: (Set<u128>, Set<u128>))
    ensures
        count_picked(eps, p, w) <= eps.len(),
    decreases eps.len(),
{
    if eps.len() > 0 {
        lemma_count_picked_le(eps.drop_last(), p, w);
    }
}

/// Number of episodes not completed (all of them without a watch state).
pub fn get_unwatched_count(episodes: &Vec<EpisodeSummary>, watch: Option<&WatchSummary>) -> (n: usize)
    ensures
        n == count_picked(episodes@, Pick::NotCompleted, match watch_view(watch) { Some(x) => x, None => no_watch() }),
{
    let ghost wv = match watch_view(watch) { Some(x) => x, None => no_watch() };
    let mut n: usize = 0;
    let mut i: usize = 0;
    while i < episodes.len()
        invariant
            i <= episodes@.len(),
            wv == match watch_view(watch) { Some(x) => x, None => no_watch() },
            n == count_picked(episodes@.take(i as int), Pick::NotCompleted, wv),
        decreases episodes@.len() - i,
    {
        proof {
            assert(episodes@.take(i + 1).drop_last() == episodes@.take(i as int));
            lemma_count_picked_le(episodes@.take(i as int), Pick::NotCompleted, wv);
        }
        if picks_exec(Pick::NotCompleted, watch, &episodes[i]) {
            n = n + 1;
        }
        i += 1;
    }
    proof {
        assert(episodes@.take(episodes@.len() as int) == episodes@);
    }
    n
}

/// How far a series has been watched: `(completed episodes, all episodes)`
/// of `episodes`, or `None` while no watch state is loaded. Progress is the
/// first over the second, and none at all for a series without episodes.
pub fn series_progress_counts(episodes: &Vec<EpisodeSummary>, watch: Option<&WatchSummary>) -> (r: Option<(usize, usize)>)
    ensures
        r == (match watch_view(watch) {
            None => None::<(usize, usize)>,
            Some(w) => Some((
                (episodes@.len() - count_picked(episodes@, Pick::NotCompleted, w)) as usize,
                episodes@.len() as usize,
            )),
        }),
{
    match watch {
        None => None,
        Some(w) => {
            let unwatched = get_unwatched_count(episodes, watch);
            proof {
                lemma_count_picked_le(episodes@, Pick::NotCompleted, (w.in_progress@, w.completed@));
            }
            Some((episodes.len() - unwatched, episodes.len()))
        },
    }
}

/// A season's number and its episodes, as the store lists them.
#[derive(Debug, Clone)]
pub struct SeasonEpisodes {
    pub season_number: u8,
    pub episodes: Vec<EpisodeSummary>,
}

/// The episodes of all seasons in playing order: seasons by number (then
/// position), and within each the episodes by number (then position).
/// Positions are `(season index, episode index)`.
pub open spec fn play_before(ss: Seq<(u8, Seq<EpisodeSummary>)>, a: (int, int), b: (int, int)) -> bool {
    let sa = ss[a.0].0;
    let sb = ss[b.0].0;
    if sa != sb {
        sa < sb
    } else if a.0 != b.0 {
        a.0 < b.0
    } else {
        let ea = ss[a.0].1[a.1].episode_number;
        let eb = ss[b.0].1[b.1].episode_number;
        if ea != eb { ea < eb } else { a.1 < b.1 }
    }
}

/// Whether `a` is a position in `ss`.
pub open spec fn valid_pos(ss: Seq<(u8, Seq<EpisodeSummary>)>, a: (int, int)) -> bool {
    0 <= a.0 < ss.len() && 0 <= a.1 < ss[a.0].1.len()
}

/// The seasons as numbers and episode sequences.
pub open spec fn seasons_view(v: Seq<SeasonEpisodes>) -> Seq<(u8, Seq<EpisodeSummary>)> {
    v.map_values(|s: SeasonEpisodes| (s.season_number, s.episodes@))
}

/// `a` is the first position, in playing order, holding episode `id`.
pub open spec fn first_with_id(ss: Seq<(u8, Seq<EpisodeSummary>)>, a: (int, int), id: u128) -> bool {
    &&& valid_pos(ss, a)
    &&& ss[a.0].1[a.1].id == id
    &&& forall|b: (int, int)| valid_pos(ss, b) && b != a && #[trigger] ss[b.0].1[b.1].id == id ==> play_before(ss, a, b)
}

/// `b` is the position right after `a` in playing order.
pub open spec fn next_after(ss: Seq<(u8, Seq<EpisodeSummary>)>, a: (int, int), b: (int, int)) -> bool {
    &&& valid_pos(ss, b)
    &&& play_before(ss, a, b)
    &&& forall|c: (int, int)| #[trigger] valid_pos(ss, c) && c != b && play_before(ss, a, c) ==> play_before(ss, b, c)
}

fn play_before_exec(ss: &Vec<SeasonEpisodes>, a: (usize, usize), b: (usize, usize)) -> (r: bool)
    requires
        valid_pos(seasons_view(ss@), (a.0 as int, a.1 as int)),
        valid_pos(seasons_view(ss@), (b.0 as int, b.1 as int)),
    ensures
        r == play_before(seasons_view(ss@), (a.0 as int, a.1 as int), (b.0 as int, b.1 as int)),
{
    let sa = ss[a.0].season_number;
    let sb = ss[b.0].season_number;
    if sa != sb {
        sa < sb
    } else if a.0 != b.0 {
        a.0 < b.0
    } else {
        let ea = ss[a.0].episodes[a.1].episode_number;
        let eb = ss[b.0].episodes[b.1].episode_number;
        if ea != eb { ea < eb } else { a.1 < b.1 }
    }
}

proof fn lemma_play_order(ss: Seq<(u8, Seq<EpisodeSummary>)>, a: (int, int), b: (int, int), c: (int, int))
    requires
        valid_pos(ss, a),
        valid_pos(ss, b),
        valid_pos(ss, c),
    ensures
        play_before(ss, a, b) && play_before(ss, b, c) ==> play_before(ss, a, c),
        a != b ==> (play_before(ss, a, b) || play_before(ss, b, a)),
        !(play_before(ss, a, b) && play_before(ss, b, a)),
{
}

/// The id of the episode after `current` in playing order; `None` when
/// `current` is not among them or is the last.
pub fn get_next_episode(seasons: &Vec<SeasonEpisodes>, current: u128) -> (r: Option<u128>)
    ensures
        ({
            let ss = seasons_view(seasons@);
            match r {
                None => forall|a: (int, int)| first_with_id(ss, a, current) ==> forall|b: (int, int)| !next_after(ss, a, b),
                Some(id) => exists|a: (int, int), b: (int, int)| first_with_id(ss, a, current) && next_after(ss, a, b) && ss[b.0].1[b.1].id == id,
            }
        }),
{
    let ghost ss = seasons_view(seasons@);
    // Find the first position holding `current`.
    let mut found: Option<(usize, usize)> = None;
    let mut s: usize = 0;
    while s < seasons.len()
        invariant
            ss == seasons_view(seasons@),
            s <= seasons@.len(),
            match found {
                None => forall|b: (int, int)| valid_pos(ss, b) && b.0 < s ==> #[trigger] ss[b.0].1[b.1].id != current,
                Some(a) => {
                    &&& valid_pos(ss, (a.0 as int, a.1 as int))
                    &&& a.0 < s
                    &&& ss[a.0 as int].1[a.1 as int].id == current
                    &&& forall|b: (int, int)| valid_pos(ss, b) && b.0 < s && b != (a.0 as int, a.1 as int)
                        && #[trigger] ss[b.0].1[b.1].id == current ==> play_before(ss, (a.0 as int, a.1 as int), b)
                },
            },
        decreases seasons@.len() - s,
    {
        let mut e: usize = 0;
        while e < seasons[s].episodes.len()
            invariant
                ss == seasons_view(seasons@),
                s < seasons@.len(),
                e <= ss[s as int].1.len(),
                match found {
                    None => forall|b: (int, int)| valid_pos(ss, b) && (b.0 < s || (b.0 == s && b.1 < e)) ==> #[trigger] ss[b.0].1[b.1].id != current,
                    Some(a) => {
                        &&& valid_pos(ss, (a.0 as int, a.1 as int))
                        &&& a.0 <= s
                        &&& ss[a.0 as int].1[a.1 as int].id == current
                        &&& forall|b: (int, int)| valid_pos(ss, b) && (b.0 < s || (b.0 == s && b.1 < e)) && b != (a.0 as int, a.1 as int)
                            && #[trigger] ss[b.0].1[b.1].id == current ==> play_before(ss, (a.0 as int, a.1 as int), b)
                    },
                },
            decreases ss[s as int].1.len() - e,
        {
            proof {
                assert(ss[s as int].1 == seasons@[s as int].episodes@);
            }
            if seasons[s].episodes[e].id == current {
                match found {
                    None => {
                        found = Some((s, e));
                    },
                    Some(a) => {
                        if play_before_exec(seasons, (s, e), a) {
                            proof {
                                assert forall|b: (int, int)| valid_pos(ss, b) && (b.0 < s || (b.0 == s && b.1 < e + 1)) && b != (s as int, e as int)
                                    && #[trigger] ss[b.0].1[b.1].id == current implies play_before(ss, (s as int, e as int), b) by {
                                    lemma_play_order(ss, (s as int, e as int), (a.0 as int, a.1 as int), b);
                                }
                            }
                            found = Some((s, e));
                        } else {
                            proof {
                                lemma_play_order(ss, (s as int, e as int), (a.0 as int, a.1 as int), (s as int, e as int));
                            }
                        }
                    },
                }
            }
            e += 1;
        }
        s += 1;
    }
    let a = match found {
        None => {
            return None;
        },
        Some(a) => a,
    };
    // Find the least position after `a`.
    let mut best: Option<(usize, usize)> = None;
    let mut s: usize = 0;
    while s < seasons.len()
        invariant
            ss == seasons_view(seasons@),
            s <= seasons@.len(),
            first_with_id(ss, (a.0 as int, a.1 as int), current),
            match best {
                None => forall|c: (int, int)| #[trigger] valid_pos(ss, c) && c.0 < s ==> !play_before(ss, (a.0 as int, a.1 as int), c),
                Some(b) => {
                    &&& valid_pos(ss, (b.0 as int, b.1 as int))
                    &&& play_before(ss, (a.0 as int, a.1 as int), (b.0 as int, b.1 as int))
                    &&& forall|c: (int, int)| #[trigger] valid_pos(ss, c) && c.0 < s && c != (b.0 as int, b.1 as int)
                        && play_before(ss, (a.0 as int, a.1 as int), c) ==> play_before(ss, (b.0 as int, b.1 as int), c)
                },
            },
        decreases seasons@.len() - s,
    {
        let mut e: usize = 0;
        while e < seasons[s].episodes.len()
            invariant
                ss == seasons_view(seasons@),
                s < seasons@.len(),
                e <= ss[s as int].1.len(),
                first_with_id(ss, (a.0 as int, a.1 as int), current),
                match best {
                    None => forall|c: (int, int)| #[trigger] valid_pos(ss, c) && (c.0 < s || (c.0 == s && c.1 < e)) ==> !play_before(ss, (a.0 as int, a.1 as int), c),
                    Some(b) => {
                        &&& valid_pos(ss, (b.0 as int, b.1 as int))
                        &&& play_before(ss, (a.0 as int, a.1 as int), (b.0 as int, b.1 as int))
                        &&& forall|c: (int, int)| #[trigger] valid_pos(ss, c) && (c.0 < s || (c.0 == s && c.1 < e)) && c != (b.0 as int, b.1 as int)
                            && play_before(ss, (a.0 as int, a.1 as int), c) ==> play_before(ss, (b.0 as int, b.1 as int), c)
                    },
                },
            decreases ss[s as int].1.len() - e,
        {
            proof {
                assert(ss[s as int].1 == seasons@[s as int].episodes@);
            }
            if play_before_exec(seasons, a, (s, e)) {
                match best {
                    None => {
                        best = Some((s, e));
                    },
                    Some(b) => {
                        if play_before_exec(seasons, (s, e), b) {
                            proof {
                                assert forall|c: (int, int)| #[trigger] valid_pos(ss, c) && (c.0 < s || (c.0 == s && c.1 < e + 1)) && c != (s as int, e as int)
                                    && play_before(ss, (a.0 as int, a.1 as int), c) implies play_before(ss, (s as int, e as int), c) by {
                                    lemma_play_order(ss, (s as int, e as int), (b.0 as int, b.1 as int), c);
                                }
                            }
                            best = Some((s, e));
                        } else {
                            proof {
                                lemma_play_order(ss, (s as int, e as int), (b.0 as int, b.1 as int), (s as int, e as int));
                            }
                        }
                    },
                }
            }
            e += 1;
        }
        s += 1;
    }
    match best {
        None => {
            proof {
                assert forall|a2: (int, int)| first_with_id(ss, a2, current) implies forall|b: (int, int)| !next_after(ss, a2, b) by {
                    if a2 != (a.0 as int, a.1 as int) {
                        lemma_play_order(ss, a2, (a.0 as int, a.1 as int), a2);
                    }
                }
            }
            None
        },
        Some(b) => {
            proof {
                assert(next_after(ss, (a.0 as int, a.1 as int), (b.0 as int, b.1 as int)));
            }
            Some(seasons[b.0].episodes[b.1].id)
        },
    }
}

/// In a series, the episode chosen among those looked for is the earliest in
/// (season, episode) order: every other such episode has a later season, or
/// the same season and an episode number at least as high.
pub proof fn lemma_series_choice_earliest(
    eps: Seq<EpisodeSummary>,
    r: Option<u128>,
    p: Pick,
    w: (Set<u128>, Set<u128>),
)
    requires
        first_id(eps, r, true, p, w),
    ensures
        exists|i: int| {
            &&& 0 <= i < eps.len()
            &&& r == Some(eps[i].id)
            &&& picks(p, w, eps[i])
            &&& forall|j: int| 0 <= j < eps.len() && #[trigger] picks(p, w, eps[j]) ==> {
                ||| eps[i].season_number < eps[j].season_number
                ||| (eps[i].season_number == eps[j].season_number && eps[i].episode_number
                    <= eps[j].episode_number)
            }
        },
{
    let i = choose|i: int| is_first(eps, i, true, p, w) && r == Some(eps[i].id);
    assert forall|j: int| 0 <= j < eps.len() && #[trigger] picks(p, w, eps[j]) implies {
        ||| eps[i].season_number < eps[j].season_number
        ||| (eps[i].season_number == eps[j].season_number && eps[i].episode_number <= eps[j].episode_number)
    } by {
        if j != i {
            assert(comes_before(eps, i, j, true));
        }
    }
}

/// In a season, the episode chosen among those looked for has the lowest
/// episode number of them.
pub proof fn lemma_season_choice_lowest(
    eps: Seq<EpisodeSummary>,
    r: Option<u128>,
    p: Pick,
    w: (Set<u128>, Set<u128>),
)
    requires
        first_id(eps, r, false, p, w),
    ensures
        exists|i: int| {
            &&& 0 <= i < eps.len()
            &&& r == Some(eps[i].id)
            &&& picks(p, w, eps[i])
            &&& forall|j: int| 0 <= j < eps.len() && #[trigger] picks(p, w, eps[j]) ==> eps[i].episode_number
                <= eps[j].episode_number
        },
{
    let i = choose|i: int| is_first(eps, i, false, p, w) && r == Some(eps[i].id);
    assert forall|j: int| 0 <= j < eps.len() && #[trigger] picks(p, w, eps[j]) implies eps[i].episode_number
        <= eps[j].episode_number by {
        if j != i {
            assert(comes_before(eps, i, j, false));
        }
    }
}

/// The episode after `a` never goes back: its season number is at least
/// that of `a` (and within one season its episode number is at least that of
/// `a`), and it is the earliest of what follows: every later episode is in
/// a season numbered at least as high, and within its season has an episode
/// number at least as high.
pub proof fn lemma_next_episode_order(ss: Seq<(u8, Seq<EpisodeSummary>)>, a: (int, int), b: (int, int))
    requires
        valid_pos(ss, a),
        next_after(ss, a, b),
    ensures
        ss[a.0].0 <= ss[b.0].0,
        a.0 == b.0 ==> ss[a.0].1[a.1].episode_number <= ss[b.0].1[b.1].episode_number,
        forall|c: (int, int)| #[trigger] valid_pos(ss, c) && play_before(ss, a, c) ==> ss[b.0].0 <= ss[c.0].0,
        forall|c: (int, int)| #[trigger] valid_pos(ss, c) && c.0 == b.0 && play_before(ss, a, c)
            ==> ss[b.0].1[b.1].episode_number <= ss[c.0].1[c.1].episode_number,
{
}

} // verus!
