//! The media store: the single source of truth for media references, with
//! its library index, the lists of movies and series in display order, the
//! series-to-library map that episodes inherit their library from, and batch
//! mode (deferred episodes, queued change events).
//!
//! The store keeps each reference's payload opaque; what its rules read of a
//! reference is a `MediaSummary`. The display order of movies and series is
//! computed by the caller's sort strategy and handed back to the store.
use vstd::prelude::*;
use std::collections::HashMap;
use crate::batch::{MediaId, BatchConfig};
use crate::sorting::{key_leq, lemma_key_leq_total, sort_keyed};

verus! {

broadcast use vstd::std_specs::hash::group_hash_axioms;

/// Kinds of media.
#[derive(Debug, Clone, Copy, PartialEq, Eq, Structural, Hash)]
pub enum MediaType {
    Movie,
    Series,
    Season,
    Episode,
}

/// What happened to a media item.
#[derive(Debug, Clone, Copy, PartialEq, Eq, Structural)]
pub enum ChangeType {
    Added,
    Updated,
    Removed,
}

/// A change notification for subscribers.
#[derive(Debug, Clone, Copy, PartialEq, Eq, Structural)]
pub struct MediaChangeEvent {
    pub media_id: MediaId,
    pub media_type: MediaType,
    pub library_id: u128,
    pub change_type: ChangeType,
}

/// What the store's rules read of a media reference.
#[derive(Debug, Clone, Copy, PartialEq, Eq, Structural)]
pub struct MediaSummary {
    pub id: MediaId,
    /// The library a series or season names, or a movie's or episode's file lives in.
    pub library_id: u128,
    /// The parent series of a season or episode.
    pub series_id: u128,
    /// The season of an episode.
    pub season_id: u128,
    /// For movies and series: whether full details (not just an endpoint) are present.
    pub has_details: bool,
    /// Where the current sort criteria place a movie or series: the lists
    /// are ordered by this key, ties by id (for a descending order the
    /// caller gives reversed keys).
    pub sort_key: u64,
}

/// The sort criteria whose order is a number of the item itself.
#[derive(Debug, Clone, Copy, PartialEq, Eq, Structural)]
pub enum KeyedSort {
    /// By the file's size in bytes.
    FileSize,
    /// By the video's height in pixels (unknown counts as 0).
    Resolution,
}

/// What those criteria read of a movie.
#[derive(Debug, Clone, Copy, PartialEq, Eq, Structural)]
pub struct SortFields {
    pub file_size: u64,
    pub height: Option<u32>,
}

/// The sort key of an item under `by`, reversed for a descending order.
pub open spec fn sort_key_for(by: KeyedSort, descending: bool, f: SortFields) -> u64 {
    let raw: u64 = match by {
        KeyedSort::FileSize => f.file_size,
        KeyedSort::Resolution => match f.height { Some(h) => h as u64, None => 0 },
    };
    if descending { (u64::MAX - raw) as u64 } else { raw }
}

/// The `sort_key` an item gets under `by` (see `sort_key_for`): the lists
/// then come back in ascending order of that number, or descending.
pub fn sort_key(by: KeyedSort, descending: bool, f: &SortFields) -> (k: u64)
    ensures
        k == sort_key_for(by, descending, *f),
{
    let raw: u64 = match by {
        KeyedSort::FileSize => f.file_size,
        KeyedSort::Resolution => match f.height {
            Some(h) => h as u64,
            None => 0,
        },
    };
    if descending { u64::MAX - raw } else { raw }
}

/// The library id that marks "no library".
pub const NO_LIBRARY: u128 = 0;

/// Kind of a media id.
pub open spec fn kind_of(id: MediaId) -> MediaType {
    match id {
        MediaId::Movie(_) => MediaType::Movie,
        MediaId::Series(_) => MediaType::Series,
        MediaId::Season(_) => MediaType::Season,
        MediaId::Episode(_) => MediaType::Episode,
    }
}

/// The UUID of a media id.
pub open spec fn uuid_of(id: MediaId) -> u128 {
    match id {
        MediaId::Movie(u) => u,
        MediaId::Series(u) => u,
        MediaId::Season(u) => u,
        MediaId::Episode(u) => u,
    }
}

pub fn media_type_of(id: &MediaId) -> (t: MediaType)
    ensures
        t == kind_of(*id),
{
    match id {
        MediaId::Movie(_) => MediaType::Movie,
        MediaId::Series(_) => MediaType::Series,
        MediaId::Season(_) => MediaType::Season,
        MediaId::Episode(_) => MediaType::Episode,
    }
}

fn uuid_exec(id: &MediaId) -> (u: u128)
    ensures
        u == uuid_of(*id),
{
    match id {
        MediaId::Movie(u) => *u,
        MediaId::Series(u) => *u,
        MediaId::Season(u) => *u,
        MediaId::Episode(u) => *u,
    }
}

/// Index of the entry with id `id` in `s`, or -1.
pub open spec fn index_of<T>(s: Seq<(MediaSummary, T)>, id: MediaId) -> int
    decreases s.len(),
{
    if s.len() == 0 {
        -1
    } else if s.last().0.id == id {
        s.len() - 1
    } else {
        index_of(s.drop_last(), id)
    }
}

/// The entry stored under `id`, if any.
pub open spec fn lookup<T>(s: Seq<(MediaSummary, T)>, id: MediaId) -> Option<(MediaSummary, T)> {
    let i = index_of(s, id);
    if i >= 0 { Some(s[i]) } else { None }
}

/// No id is stored twice.
pub open spec fn unique_entries<T>(s: Seq<(MediaSummary, T)>) -> bool {
    forall|i: int, j: int| 0 <= i < j < s.len() ==> (#[trigger] s[i]).0.id != (#[trigger] s[j]).0.id
}

pub proof fn lemma_index_of<T>(s: Seq<(MediaSummary, T)>, id: MediaId)
    ensures
        -1 <= index_of(s, id) < s.len(),
        index_of(s, id) >= 0 ==> s[index_of(s, id)].0.id == id,
        index_of(s, id) == -1 ==> forall|i: int| 0 <= i < s.len() ==> (#[trigger] s[i]).0.id != id,
    decreases s.len(),
{
    if s.len() > 0 {
        lemma_index_of(s.drop_last(), id);
        if s.last().0.id != id {
            if index_of(s, id) >= 0 {
                assert(s[index_of(s, id)] == s.drop_last()[index_of(s, id)]);
            } else {
                assert forall|i: int| 0 <= i < s.len() implies (#[trigger] s[i]).0.id != id by {
                    if i < s.len() - 1 {
                        assert(s[i] == s.drop_last()[i]);
                    }
                }
            }
        }
    }
}

/// In a store without repeated ids, the entry at `i` is the one found for its id.
pub proof fn lemma_index_of_unique<T>(s: Seq<(MediaSummary, T)>, i: int)
    requires
        unique_entries(s),
        0 <= i < s.len(),
    ensures
        index_of(s, s[i].0.id) == i,
{
    lemma_index_of(s, s[i].0.id);
    let k = index_of(s, s[i].0.id);
    if k != i {
        if k < i {
            assert(s[k].0.id != s[i].0.id);
        } else {
            assert(s[i].0.id != s[k].0.id);
        }
    }
}

/// The library an item is indexed under: seasons, movies and series by their
/// own library; episodes by their series' library when known, else their file's.
pub open spec fn library_of(s: MediaSummary, s2l: Map<u128, u128>) -> u128 {
    match s.id {
        MediaId::Episode(_) => if s2l.contains_key(s.series_id) { s2l[s.series_id] } else { s.library_id },
        _ => s.library_id,
    }
}

/// `s` without the occurrences of `id`, in order.
pub open spec fn without<A>(s: Seq<A>, x: A) -> Seq<A>
    decreases s.len(),
{
    if s.len() == 0 {
        Seq::empty()
    } else if s.last() == x {
        without(s.drop_last(), x)
    } else {
        without(s.drop_last(), x).push(s.last())
    }
}

/// `s` with consecutive repeats collapsed (`Vec::dedup`).
pub open spec fn dedup_consecutive<A>(s: Seq<A>) -> Seq<A>
    decreases s.len(),
{
    if s.len() <= 1 {
        s
    } else {
        let p = dedup_consecutive(s.drop_last());
        if s.last() == s[s.len() - 2] { p } else { p.push(s.last()) }
    }
}

/// The store's abstract state.
pub struct StoreModel<T> {
    pub media: Seq<(MediaSummary, T)>,
    pub by_library: Seq<(u128, MediaId)>,
    pub sorted_movies: Seq<MediaId>,
    pub sorted_series: Seq<MediaId>,
    pub series_to_library: Map<u128, u128>,
    pub batch_mode: bool,
    pub pending_events: Seq<MediaChangeEvent>,
    pub outbox: Seq<MediaChangeEvent>,
    pub batch_completions: nat,
    pub needs_resort: bool,
    pub is_initial_load: bool,
    pub deferred: Seq<(MediaSummary, T)>,
}


/// Whether an update would replace full details with a bare endpoint, which
/// the store refuses for movies and series.
pub open spec fn keeps_details(old_entry: MediaSummary, new_entry: MediaSummary) -> bool {
    (new_entry.id is Movie || new_entry.id is Series) && old_entry.has_details && !new_entry.has_details
}

/// The store after upserting `s` with payload `p`.
///
/// A series records its library for its episodes. In batch mode an episode
/// whose series is not known yet is deferred. An update that would replace
/// details with an endpoint is refused. Otherwise the entry is inserted or
/// replaced, indexed under its library (unless it has none), appended to the
/// movie or series list in batch mode (where repeats wait for the end of the
/// batch), or else the list is rebuilt from the stored items of its kind,
/// sorted by their keys; a change event is queued (in batch mode) or emitted.
pub open spec fn upsert_model<T>(m: StoreModel<T>, s: MediaSummary, p: T) -> StoreModel<T> {
    let id = s.id;
    let s2l = if id is Series { m.series_to_library.insert(uuid_of(id), s.library_id) } else { m.series_to_library };
    let m1 = StoreModel { series_to_library: s2l, ..m };
    if m.batch_mode && id is Episode && !s2l.contains_key(s.series_id) {
        StoreModel { deferred: m.deferred.push((s, p)), ..m1 }
    } else {
        let i = index_of(m.media, id);
        if i >= 0 && keeps_details(m.media[i].0, s) {
            m1
        } else {
            let lib = library_of(s, s2l);
            let media = if i >= 0 { m.media.update(i, (s, p)) } else { m.media.push((s, p)) };
            let by_library = if lib != NO_LIBRARY && !m.by_library.contains((lib, id)) {
                m.by_library.push((lib, id))
            } else {
                m.by_library
            };
            let ev = MediaChangeEvent {
                media_id: id,
                media_type: kind_of(id),
                library_id: lib,
                change_type: if i >= 0 { ChangeType::Updated } else { ChangeType::Added },
            };
            let m2 = StoreModel { media, by_library, ..m1 };
            let m3 = if id is Movie {
                if m.batch_mode {
                    StoreModel { sorted_movies: m.sorted_movies.push(id), needs_resort: true, ..m2 }
                } else {
                    StoreModel { sorted_movies: sorted_ids(media, MediaType::Movie), ..m2 }
                }
            } else if id is Series {
                if m.batch_mode {
                    StoreModel { sorted_series: m.sorted_series.push(id), needs_resort: true, ..m2 }
                } else {
                    StoreModel { sorted_series: sorted_ids(media, MediaType::Series), ..m2 }
                }
            } else {
                m2
            };
            if m.batch_mode {
                StoreModel { pending_events: m.pending_events.push(ev), ..m3 }
            } else {
                StoreModel { outbox: m.outbox.push(ev), ..m3 }
            }
        }
    }
}

/// Room left in every list of the store (a machine limit on lengths).
pub open spec fn has_room<T>(m: StoreModel<T>) -> bool {
    &&& m.media.len() < usize::MAX
    &&& m.by_library.len() < usize::MAX
    &&& m.sorted_movies.len() < usize::MAX
    &&& m.sorted_series.len() < usize::MAX
    &&& m.pending_events.len() < usize::MAX
    &&& m.outbox.len() < usize::MAX
    &&& m.deferred.len() < usize::MAX
}

/// The store of media references with payloads of type `T`.
pub struct MediaStore<T> {
    media: Vec<(MediaSummary, T)>,
    by_library: Vec<(u128, MediaId)>,
    sorted_movie_ids: Vec<MediaId>,
    sorted_series_ids: Vec<MediaId>,
    series_to_library: HashMap<u128, u128>,
    batch_mode: bool,
    pending_events: Vec<MediaChangeEvent>,
    outbox: Vec<MediaChangeEvent>,
    batch_complete: bool,
    needs_resort: bool,
    is_initial_load: bool,
    deferred_items: Vec<(MediaSummary, T)>,
}

impl<T> MediaStore<T> {
    /// The store's abstract state.
    pub closed spec fn model(&self) -> StoreModel<T> {
        StoreModel {
            media: self.media@,
            by_library: self.by_library@,
            sorted_movies: self.sorted_movie_ids@,
            sorted_series: self.sorted_series_ids@,
            series_to_library: self.series_to_library@,
            batch_mode: self.batch_mode,
            pending_events: self.pending_events@,
            outbox: self.outbox@,
            batch_completions: if self.batch_complete { 1nat } else { 0nat },
            needs_resort: self.needs_resort,
            is_initial_load: self.is_initial_load,
            deferred: self.deferred_items@,
        }
    }

    /// Well-formedness: no id stored twice, no library pair indexed twice.
    pub open spec fn wf(&self) -> bool {
        &&& unique_entries(self.model().media)
        &&& self.model().by_library.no_duplicates()
    }

    proof fn reveal_model(&self)
        ensures
            self.model() == (StoreModel {
                media: self.media@,
                by_library: self.by_library@,
                sorted_movies: self.sorted_movie_ids@,
                sorted_series: self.sorted_series_ids@,
                series_to_library: self.series_to_library@,
                batch_mode: self.batch_mode,
                pending_events: self.pending_events@,
                outbox: self.outbox@,
                batch_completions: if self.batch_complete { 1nat } else { 0nat },
                needs_resort: self.needs_resort,
                is_initial_load: self.is_initial_load,
                deferred: self.deferred_items@,
            }),
    {
    }

    /// An empty store, expecting an initial load.
    pub fn new() -> (st: MediaStore<T>)
        ensures
            lists_consistent(st.model()),
            st.wf(),
            lists_match(st.model()),
            st.model().media.len() == 0,
            st.model().by_library.len() == 0,
            st.model().sorted_movies.len() == 0,
            st.model().sorted_series.len() == 0,
            st.model().series_to_library == Map::<u128, u128>::empty(),
            !st.model().batch_mode,
            st.model().pending_events.len() == 0,
            st.model().outbox.len() == 0,
            st.model().batch_completions == 0,
            !st.model().needs_resort,
            st.model().is_initial_load,
            st.model().deferred.len() == 0,
    {
        let st = MediaStore {
            media: Vec::new(),
            by_library: Vec::new(),
            sorted_movie_ids: Vec::new(),
            sorted_series_ids: Vec::new(),
            series_to_library: HashMap::new(),
            batch_mode: false,
            pending_events: Vec::new(),
            outbox: Vec::new(),
            batch_complete: false,
            needs_resort: false,
            is_initial_load: true,
            deferred_items: Vec::new(),
        };
        proof {
            st.reveal_model();
        }
        st
    }

    fn find(&self, id: &MediaId) -> (r: Option<usize>)
        ensures
            match r {
                Some(i) => i as int == index_of(self.model().media, *id) && i < self.model().media.len(),
                None => index_of(self.model().media, *id) == -1,
            },
    {
        proof {
            self.reveal_model();
            lemma_index_of(self.media@, *id);
        }
        let mut i = self.media.len();
        assert(self.media@.take(i as int) == self.media@);
        while i > 0
            invariant
                i <= self.media@.len(),
                index_of(self.media@, *id) == index_of(self.media@.take(i as int), *id),
            decreases i,
        {
            proof {
                assert(self.media@.take(i as int).drop_last() == self.media@.take(i - 1));
                assert(self.media@.take(i as int).last() == self.media@[i - 1]);
            }
            if self.media[i - 1].0.id == *id {
                return Some(i - 1);
            }
            i -= 1;
        }
        None
    }

    fn library_indexed(&self, lib: u128, id: &MediaId) -> (b: bool)
        ensures
            b == self.model().by_library.contains((lib, *id)),
    {
        proof {
            self.reveal_model();
        }
        let mut k: usize = 0;
        while k < self.by_library.len()
            invariant
                k <= self.by_library@.len(),
                forall|t: int| 0 <= t < k ==> self.by_library@[t] != (lib, *id),
            decreases self.by_library@.len() - k,
        {
            let (l, x) = self.by_library[k];
            if l == lib && x == *id {
                assert(self.by_library@[k as int] == (lib, *id));
                return true;
            }
            k += 1;
        }
        false
    }

    /// The payload stored under `id`.
    pub fn get(&self, id: &MediaId) -> (r: Option<&T>)
        ensures
            match lookup(self.model().media, *id) {
                Some(e) => r == Some(&e.1),
                None => r is None,
            },
    {
        match self.find(id) {
            Some(i) => {
                proof {
                    self.reveal_model();
                }
                Some(&self.media[i].1)
            },
            None => None,
        }
    }

    /// The summary stored under `id`.
    pub fn summary(&self, id: &MediaId) -> (r: Option<MediaSummary>)
        ensures
            match lookup(self.model().media, *id) {
                Some(e) => r == Some(e.0),
                None => r is None,
            },
    {
        match self.find(id) {
            Some(i) => {
                proof {
                    self.reveal_model();
                }
                Some(self.media[i].0)
            },
            None => None,
        }
    }

    /// Number of stored items.
    pub fn len(&self) -> (n: usize)
        ensures
            n == self.model().media.len(),
    {
        proof {
            self.reveal_model();
        }
        self.media.len()
    }

    /// Whether nothing is stored.
    pub fn is_empty(&self) -> (b: bool)
        ensures
            b == (self.model().media.len() == 0),
    {
        proof {
            self.reveal_model();
        }
        self.media.len() == 0
    }
}

impl<T> MediaStore<T> {
    /// Whether every list of the store has room for one more entry, as
    /// `upsert`, `remove` and the event handlers require.
    pub fn has_room_for_one(&self) -> (b: bool)
        ensures
            b == has_room(self.model()),
    {
        proof {
            self.reveal_model();
        }
        self.media.len() < usize::MAX && self.by_library.len() < usize::MAX
            && self.sorted_movie_ids.len() < usize::MAX && self.sorted_series_ids.len() < usize::MAX
            && self.pending_events.len() < usize::MAX && self.outbox.len() < usize::MAX
            && self.deferred_items.len() < usize::MAX
    }
}

impl<T> MediaStore<T> {
    /// Insert or update a media item (see `upsert_model`); returns its id.
    pub fn upsert(&mut self, summary: MediaSummary, payload: T) -> (id: MediaId)
        requires
            old(self).wf(),
            has_room(old(self).model()),
        ensures
            lists_consistent(old(self).model()) ==> lists_consistent(final(self).model()),
            final(self).wf(),
            id == summary.id,
            final(self).model() == upsert_model(old(self).model(), summary, payload),
            !old(self).model().batch_mode && lists_match(old(self).model()) ==> lists_match(final(self).model()),
    {
        proof {
            self.reveal_model();
        }
        let ghost m = self.model();
        let id = summary.id;
        if let MediaId::Series(u) = id {
            self.series_to_library.insert(u, summary.library_id);
        }
        let ghost s2l = self.series_to_library@;
        assert(s2l == if id is Series { m.series_to_library.insert(uuid_of(id), summary.library_id) } else { m.series_to_library });
        if self.batch_mode {
            if let MediaId::Episode(_) = id {
                if !self.series_to_library.contains_key(&summary.series_id) {
                    self.deferred_items.push((summary, payload));
                    proof {
                        self.reveal_model();
                    }
                    return id;
                }
            }
        }
        let found = self.find(&id);
        proof {
            self.reveal_model();
            lemma_index_of(m.media, id);
        }
        if let Some(i) = found {
            let prev = self.media[i].0;
            let guarded = matches!(id, MediaId::Movie(_)) || matches!(id, MediaId::Series(_));
            if guarded && prev.has_details && !summary.has_details {
                return id;
            }
        }
        let lib: u128 = match id {
            MediaId::Episode(_) => match self.series_to_library.get(&summary.series_id) {
                Some(l) => *l,
                None => summary.library_id,
            },
            _ => summary.library_id,
        };
        assert(lib == library_of(summary, s2l));
        let change = match found {
            Some(i) => {
                self.media.set(i, (summary, payload));
                ChangeType::Updated
            },
            None => {
                self.media.push((summary, payload));
                ChangeType::Added
            },
        };
        proof {
            assert(unique_entries(self.media@)) by {
                assert forall|a: int, b: int| 0 <= a < b < self.media@.len() implies (#[trigger] self.media@[a]).0.id != (#[trigger] self.media@[b]).0.id by {
                    match found {
                        Some(i) => {
                            if a != i && b != i {
                                assert(self.media@[a] == m.media[a] && self.media@[b] == m.media[b]);
                            } else if a == i {
                                assert(self.media@[b] == m.media[b]);
                                assert(m.media[i as int].0.id == id);
                            } else {
                                assert(self.media@[a] == m.media[a]);
                                assert(m.media[i as int].0.id == id);
                            }
                        },
                        None => {
                            if b == m.media.len() {
                                assert(self.media@[a] == m.media[a]);
                            } else {
                                assert(self.media@[a] == m.media[a] && self.media@[b] == m.media[b]);
                            }
                        },
                    }
                }
            }
        }
        if lib != NO_LIBRARY && !self.library_indexed(lib, &id) {
            self.by_library.push((lib, id));
            proof {
                assert(self.by_library@.no_duplicates()) by {
                    assert forall|a: int, b: int| 0 <= a < self.by_library@.len() && 0 <= b < self.by_library@.len() && a != b
                        implies self.by_library@[a] != self.by_library@[b] by {
                        if a == m.by_library.len() as int {
                            assert(m.by_library[b] == self.by_library@[b]);
                        } else if b == m.by_library.len() as int {
                            assert(m.by_library[a] == self.by_library@[a]);
                        } else {
                            assert(m.by_library[a] == self.by_library@[a] && m.by_library[b] == self.by_library@[b]);
                        }
                    }
                }
            }
        }
        match id {
            MediaId::Movie(_) => {
                if self.batch_mode {
                    self.sorted_movie_ids.push(id);
                    self.needs_resort = true;
                } else {
                    proof {
                        self.reveal_model();
                    }
                    self.sorted_movie_ids = self.sorted_ids_of(MediaType::Movie);
                }
            },
            MediaId::Series(_) => {
                if self.batch_mode {
                    self.sorted_series_ids.push(id);
                    self.needs_resort = true;
                } else {
                    proof {
                        self.reveal_model();
                    }
                    self.sorted_series_ids = self.sorted_ids_of(MediaType::Series);
                }
            },
            _ => {},
        }
        let ev = MediaChangeEvent { media_id: id, media_type: media_type_of(&id), library_id: lib, change_type: change };
        if self.batch_mode {
            self.pending_events.push(ev);
        } else {
            self.outbox.push(ev);
        }
        proof {
            self.reveal_model();
            if !m.batch_mode && lists_match(m) {
                lemma_upsert_keeps_lists(m, summary, payload);
            }
        }
        id
    }
}

fn remove_all(v: &mut Vec<MediaId>, id: MediaId)
    ensures
        final(v)@ == without(old(v)@, id),
{
    let ghost orig = v@;
    let mut out: Vec<MediaId> = Vec::new();
    let mut i: usize = 0;
    while i < v.len()
        invariant
            v@ == orig,
            i <= orig.len(),
            out@ == without(orig.take(i as int), id),
        decreases orig.len() - i,
    {
        proof {
            assert(orig.take(i + 1).drop_last() == orig.take(i as int));
        }
        let x = v[i];
        if x != id {
            out.push(x);
        }
        i += 1;
    }
    proof {
        assert(orig.take(orig.len() as int) == orig);
    }
    *v = out;
}


pub proof fn lemma_without<A>(s: Seq<A>, x: A)
    ensures
        without(s, x).len() <= s.len(),
        forall|y: A| #[trigger] without(s, x).contains(y) <==> (s.contains(y) && y != x),
        s.no_duplicates() ==> without(s, x).no_duplicates(),
    decreases s.len(),
{
    if s.len() > 0 {
        let p = s.drop_last();
        lemma_without(p, x);
        let w = without(p, x);
        assert forall|y: A| #[trigger] without(s, x).contains(y) <==> (s.contains(y) && y != x) by {
            if s.last() == x {
                if s.contains(y) && y != x {
                    let k = choose|k: int| 0 <= k < s.len() && s[k] == y;
                    assert(k < p.len());
                    assert(p[k] == y);
                    assert(p.contains(y));
                }
                if w.contains(y) {
                    assert(p.contains(y));
                    let k = choose|k: int| 0 <= k < p.len() && p[k] == y;
                    assert(s[k] == y);
                }
            } else {
                let w2 = w.push(s.last());
                if s.contains(y) && y != x {
                    let k = choose|k: int| 0 <= k < s.len() && s[k] == y;
                    if k < p.len() {
                        assert(p[k] == y);
                        assert(p.contains(y));
                        assert(w.contains(y));
                        let j = choose|j: int| 0 <= j < w.len() && w[j] == y;
                        assert(w2[j] == y);
                    } else {
                        assert(w2[w.len() as int] == y);
                    }
                }
                if w2.contains(y) {
                    let j = choose|j: int| 0 <= j < w2.len() && w2[j] == y;
                    if j < w.len() {
                        assert(w[j] == y);
                        assert(w.contains(y));
                        assert(p.contains(y));
                        let k = choose|k: int| 0 <= k < p.len() && p[k] == y;
                        assert(s[k] == y);
                    } else {
                        assert(s[s.len() - 1] == y);
                    }
                }
            }
        }
        if s.no_duplicates() {
            assert(p.no_duplicates()) by {
                assert forall|a: int, b: int| 0 <= a < p.len() && 0 <= b < p.len() && a != b implies p[a] != p[b] by {
                    assert(p[a] == s[a] && p[b] == s[b]);
                }
            }
            if s.last() != x {
                let w2 = w.push(s.last());
                assert(!p.contains(s.last())) by {
                    if p.contains(s.last()) {
                        let k = choose|k: int| 0 <= k < p.len() && p[k] == s.last();
                        assert(s[k] == s[s.len() - 1]);
                    }
                }
                assert(!w.contains(s.last()));
                assert forall|a: int, b: int| 0 <= a < w2.len() && 0 <= b < w2.len() && a != b implies w2[a] != w2[b] by {
                    if a == w.len() as int {
                        assert(w.contains(w2[b]));
                    } else if b == w.len() as int {
                        assert(w.contains(w2[a]));
                    }
                }
            }
        }
    }
}

/// The store after removing the item `id` (if stored): its library index
/// entry, its place in the movie or series list, a series' library mapping,
/// and a removal event.
pub open spec fn remove_model<T>(m: StoreModel<T>, id: MediaId) -> StoreModel<T> {
    let i = index_of(m.media, id);
    if i < 0 {
        m
    } else {
        let e = m.media[i].0;
        let lib = library_of(e, m.series_to_library);
        let m1 = StoreModel {
            media: m.media.remove(i),
            by_library: without(m.by_library, (lib, id)),
            sorted_movies: if id is Movie { without(m.sorted_movies, id) } else { m.sorted_movies },
            sorted_series: if id is Series { without(m.sorted_series, id) } else { m.sorted_series },
            series_to_library: if id is Series { m.series_to_library.remove(uuid_of(id)) } else { m.series_to_library },
            ..m
        };
        let ev = MediaChangeEvent { media_id: id, media_type: kind_of(id), library_id: lib, change_type: ChangeType::Removed };
        if m.batch_mode {
            StoreModel { pending_events: m.pending_events.push(ev), ..m1 }
        } else {
            StoreModel { outbox: m.outbox.push(ev), ..m1 }
        }
    }
}

proof fn lemma_remove_keeps_lists<T>(m: StoreModel<T>, id: MediaId)
    requires
        unique_entries(m.media),
        lists_match(m),
    ensures
        lists_match(remove_model(m, id)),
{
    let r = remove_model(m, id);
    lemma_index_of(m.media, id);
    let i = index_of(m.media, id);
    if i >= 0 {
        lemma_without(m.sorted_movies, id);
        lemma_without(m.sorted_series, id);
        assert forall|x: MediaId| (index_of(r.media, x) >= 0 <==> (index_of(m.media, x) >= 0 && x != id)) by {
            lemma_stored_iff(r.media, x);
            lemma_stored_iff(m.media, x);
            if index_of(m.media, x) >= 0 && x != id {
                let j = choose|j: int| 0 <= j < m.media.len() && (#[trigger] m.media[j]).0.id == x;
                assert(j != i);
                let jr = if j < i { j } else { j - 1 };
                assert(r.media[jr] == m.media[j]);
            }
            if index_of(r.media, x) >= 0 {
                let j = choose|j: int| 0 <= j < r.media.len() && (#[trigger] r.media[j]).0.id == x;
                let jm = if j < i { j } else { j + 1 };
                assert(r.media[j] == m.media[jm]);
                assert(jm != i);
                assert(m.media[jm].0.id != m.media[i].0.id);
            }
        }
        assert forall|x: MediaId| #[trigger] r.sorted_movies.contains(x) <==> (x is Movie && index_of(r.media, x) >= 0) by {
            assert(m.sorted_movies.contains(x) <==> (x is Movie && index_of(m.media, x) >= 0));
        }
        assert forall|x: MediaId| #[trigger] r.sorted_series.contains(x) <==> (x is Series && index_of(r.media, x) >= 0) by {
            assert(m.sorted_series.contains(x) <==> (x is Series && index_of(m.media, x) >= 0));
        }
    }
}

fn remove_pair(v: &mut Vec<(u128, MediaId)>, x: (u128, MediaId))
    ensures
        final(v)@ == without(old(v)@, x),
{
    let ghost orig = v@;
    let mut out: Vec<(u128, MediaId)> = Vec::new();
    let mut i: usize = 0;
    while i < v.len()
        invariant
            v@ == orig,
            i <= orig.len(),
            out@ == without(orig.take(i as int), x),
        decreases orig.len() - i,
    {
        proof {
            assert(orig.take(i + 1).drop_last() == orig.take(i as int));
        }
        let y = v[i];
        if !(y.0 == x.0 && y.1 == x.1) {
            out.push(y);
        } else {
            assert(y == x);
        }
        i += 1;
    }
    proof {
        assert(orig.take(orig.len() as int) == orig);
    }
    *v = out;
}

impl<T> MediaStore<T> {
    /// Remove an item; returns its payload when it was stored.
    pub fn remove(&mut self, id: &MediaId) -> (r: Option<T>)
        requires
            old(self).wf(),
            has_room(old(self).model()),
        ensures
            lists_consistent(old(self).model()) ==> lists_consistent(final(self).model()),
            final(self).wf(),
            final(self).model() == remove_model(old(self).model(), *id),
            lists_match(old(self).model()) ==> lists_match(final(self).model()),
            match lookup(old(self).model().media, *id) {
                Some(e) => r == Some(e.1),
                None => r is None,
            },
    {
        proof {
            self.reveal_model();
        }
        let ghost m = self.model();
        let found = self.find(id);
        let i = match found {
            None => {
                return None;
            },
            Some(i) => i,
        };
        proof {
            lemma_index_of(m.media, *id);
        }
        let (summary, payload) = self.media.remove(i);
        let lib: u128 = match summary.id {
            MediaId::Episode(_) => match self.series_to_library.get(&summary.series_id) {
                Some(l) => *l,
                None => summary.library_id,
            },
            _ => summary.library_id,
        };
        remove_pair(&mut self.by_library, (lib, *id));
        proof {
            lemma_without(m.by_library, (lib, *id));
        }
        match id {
            MediaId::Movie(_) => {
                remove_all(&mut self.sorted_movie_ids, *id);
            },
            MediaId::Series(u) => {
                remove_all(&mut self.sorted_series_ids, *id);
                self.series_to_library.remove(u);
            },
            _ => {},
        }
        let ev = MediaChangeEvent { media_id: *id, media_type: media_type_of(id), library_id: lib, change_type: ChangeType::Removed };
        if self.batch_mode {
            self.pending_events.push(ev);
        } else {
            self.outbox.push(ev);
        }
        proof {
            self.reveal_model();
            assert(unique_entries(self.media@)) by {
                assert forall|a: int, b: int| 0 <= a < b < self.media@.len() implies (#[trigger] self.media@[a]).0.id != (#[trigger] self.media@[b]).0.id by {
                    let ia = if a < i { a } else { a + 1 };
                    let ib = if b < i { b } else { b + 1 };
                    assert(self.media@[a] == m.media[ia] && self.media@[b] == m.media[ib]);
                }
            }
            if lists_match(m) {
                lemma_remove_keeps_lists(m, *id);
            }
        }
        Some(payload)
    }
}


/// Upsert each item in turn.
pub open spec fn upsert_all<T>(m: StoreModel<T>, items: Seq<(MediaSummary, T)>) -> StoreModel<T>
    decreases items.len(),
{
    if items.len() == 0 {
        m
    } else {
        let prev = upsert_all(m, items.drop_last());
        upsert_model(prev, items.last().0, items.last().1)
    }
}

/// The store after entering batch mode: queued events and deferred items cleared.
pub open spec fn begin_batch_model<T>(m: StoreModel<T>) -> StoreModel<T> {
    StoreModel { batch_mode: true, pending_events: Seq::empty(), deferred: Seq::empty(), ..m }
}

/// The store after leaving batch mode: deferred items are upserted again (now
/// outside batch mode, so an episode whose series is still unknown takes its
/// file's library), both lists are rebuilt from the stored movies and series
/// and sorted by their keys, the queued events are
/// emitted after those of the deferred items, and a batch completion is
/// signalled. Outside batch mode nothing happens.
pub open spec fn end_batch_model<T>(m: StoreModel<T>) -> StoreModel<T> {
    if !m.batch_mode {
        m
    } else {
        let m1 = StoreModel { batch_mode: false, deferred: Seq::empty(), ..m };
        let m2 = upsert_all(m1, m.deferred);
        StoreModel {
            sorted_movies: sorted_ids(m2.media, MediaType::Movie),
            sorted_series: sorted_ids(m2.media, MediaType::Series),
            needs_resort: false,
            outbox: m2.outbox + m.pending_events,
            pending_events: Seq::empty(),
            batch_completions: 1,
            ..m2
        }
    }
}

/// Room for `k` more entries in every list of the store.
pub open spec fn room_for<T>(m: StoreModel<T>, k: nat) -> bool {
    &&& m.media.len() + k < usize::MAX
    &&& m.by_library.len() + k < usize::MAX
    &&& m.sorted_movies.len() + k < usize::MAX
    &&& m.sorted_series.len() + k < usize::MAX
    &&& m.pending_events.len() + k < usize::MAX
    &&& m.outbox.len() + k < usize::MAX
    &&& m.deferred.len() + k < usize::MAX
}

/// Every list of `b` is at most `k` longer than in `a`, and `b` keeps `a`'s
/// batch mode (and, outside it, its queued events and deferred items).
pub open spec fn grows_by<T>(a: StoreModel<T>, b: StoreModel<T>, k: nat) -> bool {
    &&& b.media.len() <= a.media.len() + k
    &&& b.by_library.len() <= a.by_library.len() + k
    &&& (b.sorted_movies.len() <= a.sorted_movies.len() + k || b.sorted_movies.len() <= a.media.len() + k)
    &&& (b.sorted_series.len() <= a.sorted_series.len() + k || b.sorted_series.len() <= a.media.len() + k)
    &&& b.pending_events.len() <= a.pending_events.len() + k
    &&& b.outbox.len() <= a.outbox.len() + k
    &&& b.deferred.len() <= a.deferred.len() + k
    &&& b.batch_mode == a.batch_mode
    &&& !a.batch_mode ==> b.pending_events == a.pending_events && b.deferred == a.deferred
}

proof fn lemma_upsert_growth<T>(m: StoreModel<T>, s: MediaSummary, p: T)
    ensures
        grows_by(m, upsert_model(m, s, p), 1),
{
    lemma_index_of(m.media, s.id);
    let r = upsert_model(m, s, p);
    lemma_sorted_ids_len(r.media, MediaType::Movie);
    lemma_sorted_ids_len(r.media, MediaType::Series);
    let id = s.id;
    let s2l = if id is Series { m.series_to_library.insert(uuid_of(id), s.library_id) } else { m.series_to_library };
    if m.batch_mode && id is Episode && !s2l.contains_key(s.series_id) {
        assert(r.deferred.len() == m.deferred.len() + 1);
    } else {
        let i = index_of(m.media, id);
        if i >= 0 && keeps_details(m.media[i].0, s) {
        } else {
            assert(r.media.len() <= m.media.len() + 1);
            assert(r.by_library.len() <= m.by_library.len() + 1);
            assert(r.deferred == m.deferred);
            assert(r.batch_mode == m.batch_mode);
        }
    }
}

proof fn lemma_upsert_all_growth<T>(m: StoreModel<T>, items: Seq<(MediaSummary, T)>)
    ensures
        grows_by(m, upsert_all(m, items), items.len()),
    decreases items.len(),
{
    if items.len() > 0 {
        lemma_upsert_all_growth(m, items.drop_last());
        lemma_upsert_growth(upsert_all(m, items.drop_last()), items.last().0, items.last().1);
    }
}

impl<T> MediaStore<T> {
    /// Enter batch mode: delay change events until `end_batch`.
    pub fn begin_batch(&mut self)
        requires
            old(self).wf(),
        ensures
            lists_consistent(old(self).model()) ==> lists_consistent(final(self).model()),
            final(self).wf(),
            final(self).model() == begin_batch_model(old(self).model()),
    {
        self.batch_mode = true;
        self.pending_events = Vec::new();
        self.deferred_items = Vec::new();
        proof {
            self.reveal_model();
        }
    }

    /// Mark the next batch as an initial load from the server.
    pub fn set_initial_load(&mut self, is_initial: bool)
        requires
            old(self).wf(),
        ensures
            lists_consistent(old(self).model()) ==> lists_consistent(final(self).model()),
            final(self).wf(),
            final(self).model() == (StoreModel { is_initial_load: is_initial, ..old(self).model() }),
    {
        self.is_initial_load = is_initial;
        proof {
            self.reveal_model();
        }
    }

    fn upsert_each(&mut self, items: Vec<(MediaSummary, T)>, ids: &mut Vec<MediaId>)
        requires
            old(self).wf(),
            room_for(old(self).model(), items@.len() + 1),
        ensures
            final(self).wf(),
            final(self).model() == upsert_all(old(self).model(), items@),
            final(ids)@ == old(ids)@ + items@.map_values(|e: (MediaSummary, T)| e.0.id),
    {
        let ghost m0 = self.model();
        let ghost all = items@;
        let ghost ids0 = ids@;
        let mut rest = items;
        let mut k: usize = 0;
        while rest.len() > 0
            invariant
                self.wf(),
                k <= all.len(),
                rest@ == all.skip(k as int),
                self.model() == upsert_all(m0, all.take(k as int)),
                room_for(m0, all.len() + 1),
                ids@ == ids0 + all.take(k as int).map_values(|e: (MediaSummary, T)| e.0.id),
            decreases rest@.len(),
        {
            proof {
                lemma_upsert_all_growth(m0, all.take(k as int));
                assert(all.skip(k as int)[0] == all[k as int]);
            }
            let (s, p) = rest.remove(0);
            let id = self.upsert(s, p);
            ids.push(id);
            proof {
                assert(all.take(k + 1).drop_last() == all.take(k as int));
                assert(all.take(k + 1).last() == all[k as int]);
                assert(all.skip(k as int).remove(0) == all.skip(k + 1));
                assert(ids@ =~= ids0 + all.take(k + 1).map_values(|e: (MediaSummary, T)| e.0.id));
            }
            k += 1;
        }
        proof {
            assert(all.take(k as int) == all);
        }
    }

    /// Leave batch mode (see `end_batch_model`).
    pub fn end_batch(&mut self)
        requires
            old(self).wf(),
            room_for(old(self).model(), old(self).model().deferred.len() + old(self).model().pending_events.len() + 1),
        ensures
            lists_consistent(old(self).model()) ==> lists_consistent(final(self).model()),
            final(self).wf(),
            final(self).model() == end_batch_model(old(self).model()),
            old(self).model().batch_mode ==> lists_match(final(self).model()),
            old(self).model().batch_mode ==> final(self).model().sorted_movies == sorted_ids(final(self).model().media, MediaType::Movie)
                && final(self).model().sorted_series == sorted_ids(final(self).model().media, MediaType::Series),
    {
        proof {
            self.reveal_model();
        }
        if !self.batch_mode {
            return;
        }
        let ghost m = self.model();
        self.batch_mode = false;
        let mut deferred: Vec<(MediaSummary, T)> = Vec::new();
        std::mem::swap(&mut deferred, &mut self.deferred_items);
        proof {
            self.reveal_model();
            assert(self.model() == (StoreModel { batch_mode: false, deferred: Seq::empty(), ..m }));
        }
        let mut ids: Vec<MediaId> = Vec::new();
        self.upsert_each(deferred, &mut ids);
        proof {
            lemma_upsert_all_growth(StoreModel { batch_mode: false, deferred: Seq::empty(), ..m }, m.deferred);
            self.reveal_model();
        }
        self.sorted_movie_ids = self.sorted_ids_of(MediaType::Movie);
        self.sorted_series_ids = self.sorted_ids_of(MediaType::Series);
        self.needs_resort = false;
        let mut pending: Vec<MediaChangeEvent> = Vec::new();
        std::mem::swap(&mut pending, &mut self.pending_events);
        self.outbox.append(&mut pending);
        self.batch_complete = true;
        proof {
            self.reveal_model();
            lemma_lists_rebuilt(self.model());
        }
    }

    /// Upsert many items at once: series first (so their episodes find their
    /// library), then the rest, each group in the given order, all in one
    /// batch (the current one, or one opened and closed here). Returns the
    /// ids in the order upserted.
    #[verifier::rlimit(40)]
    pub fn bulk_upsert(&mut self, items: Vec<(MediaSummary, T)>) -> (ids: Vec<MediaId>)
        requires
            old(self).wf(),
            room_for(old(self).model(), 3 * items@.len() + old(self).model().deferred.len() + old(self).model().pending_events.len() + 1),
        ensures
            lists_consistent(old(self).model()) ==> lists_consistent(final(self).model()),
            final(self).wf(),
            ({
                let m = old(self).model();
                let series = series_items(items@);
                let others = other_items(items@);
                let m1 = if m.batch_mode { m } else { begin_batch_model(m) };
                let m2 = upsert_all(upsert_all(m1, series), others);
                &&& final(self).model() == if m.batch_mode { m2 } else { end_batch_model(m2) }
                &&& ids@ == (series + others).map_values(|e: (MediaSummary, T)| e.0.id)
            }),
            !old(self).model().batch_mode ==> lists_match(final(self).model()),
    {
        let ghost m = self.model();
        let ghost all = items@;
        let was_batch = self.is_batch_mode();
        if !was_batch {
            self.begin_batch();
        }
        let ghost m1 = self.model();
        let (series, others) = split_series(items);
        proof {
            lemma_split_len(all);
            assert(grows_by(m, m1, 0) || !m.batch_mode);
        }
        let ghost sv = series@;
        let ghost ov = others@;
        let mut ids: Vec<MediaId> = Vec::new();
        proof {
            assert(room_for(m1, sv.len() + 1));
        }
        self.upsert_each(series, &mut ids);
        proof {
            lemma_upsert_all_growth(m1, sv);
        }
        self.upsert_each(others, &mut ids);
        proof {
            lemma_upsert_all_growth(upsert_all(m1, sv), ov);
            assert(ids@ =~= (sv + ov).map_values(|e: (MediaSummary, T)| e.0.id));
            let m2 = upsert_all(upsert_all(m1, sv), ov);
            assert(m2.deferred.len() <= m1.deferred.len() + sv.len() + ov.len());
            assert(m2.pending_events.len() <= m1.pending_events.len() + sv.len() + ov.len());
        }
        if !was_batch {
            self.end_batch();
        }
        ids
    }

    /// Whether the store is in batch mode.
    pub fn is_batch_mode(&self) -> (b: bool)
        ensures
            b == self.model().batch_mode,
    {
        proof {
            self.reveal_model();
        }
        self.batch_mode
    }
}

fn split_series<T>(items: Vec<(MediaSummary, T)>) -> (r: (Vec<(MediaSummary, T)>, Vec<(MediaSummary, T)>))
    requires
        items@.len() < usize::MAX,
    ensures
        r.0@ == series_items(items@),
        r.1@ == other_items(items@),
{
    let ghost all = items@;
    let mut series: Vec<(MediaSummary, T)> = Vec::new();
    let mut others: Vec<(MediaSummary, T)> = Vec::new();
    let mut rest = items;
    let mut k: usize = 0;
    while rest.len() > 0
        invariant
            k <= all.len(),
            all.len() < usize::MAX,
            rest@ == all.skip(k as int),
            series@ == series_items(all.take(k as int)),
            others@ == other_items(all.take(k as int)),
        decreases rest@.len(),
    {
        proof {
            assert(all.skip(k as int)[0] == all[k as int]);
            assert(all.take(k + 1).drop_last() == all.take(k as int));
            assert(all.take(k + 1).last() == all[k as int]);
            assert(all.skip(k as int).remove(0) == all.skip(k + 1));
        }
        let (s, p) = rest.remove(0);
        if matches!(s.id, MediaId::Series(_)) {
            series.push((s, p));
        } else {
            others.push((s, p));
        }
        k += 1;
    }
    proof {
        assert(all.take(k as int) == all);
    }
    (series, others)
}

/// The series among `items`, in order.
pub open spec fn series_items<T>(items: Seq<(MediaSummary, T)>) -> Seq<(MediaSummary, T)>
    decreases items.len(),
{
    if items.len() == 0 {
        Seq::empty()
    } else if items.last().0.id is Series {
        series_items(items.drop_last()).push(items.last())
    } else {
        series_items(items.drop_last())
    }
}

/// The items other than series, in order.
pub open spec fn other_items<T>(items: Seq<(MediaSummary, T)>) -> Seq<(MediaSummary, T)>
    decreases items.len(),
{
    if items.len() == 0 {
        Seq::empty()
    } else if items.last().0.id is Series {
        other_items(items.drop_last())
    } else {
        other_items(items.drop_last()).push(items.last())
    }
}

proof fn lemma_split_len<T>(items: Seq<(MediaSummary, T)>)
    ensures
        series_items(items).len() + other_items(items).len() == items.len(),
    decreases items.len(),
{
    if items.len() > 0 {
        lemma_split_len(items.drop_last());
    }
}


/// The payloads of the entries of kind `k`, in storage order.
pub open spec fn payloads_of_kind<T>(s: Seq<(MediaSummary, T)>, k: MediaType) -> Seq<T>
    decreases s.len(),
{
    if s.len() == 0 {
        Seq::empty()
    } else if kind_of(s.last().0.id) == k {
        payloads_of_kind(s.drop_last(), k).push(s.last().1)
    } else {
        payloads_of_kind(s.drop_last(), k)
    }
}

/// The ids of the entries of kind `k`, in storage order.
pub open spec fn ids_of_kind<T>(s: Seq<(MediaSummary, T)>, k: MediaType) -> Seq<MediaId>
    decreases s.len(),
{
    if s.len() == 0 {
        Seq::empty()
    } else if kind_of(s.last().0.id) == k {
        ids_of_kind(s.drop_last(), k).push(s.last().0.id)
    } else {
        ids_of_kind(s.drop_last(), k)
    }
}

proof fn lemma_ids_of_kind_len<T>(s: Seq<(MediaSummary, T)>, k: MediaType)
    ensures
        ids_of_kind(s, k).len() <= s.len(),
    decreases s.len(),
{
    if s.len() > 0 {
        lemma_ids_of_kind_len(s.drop_last(), k);
    }
}

/// The (sort key, UUID) pairs of the stored items of kind `k`, in storage order.
pub open spec fn keyed<T>(s: Seq<(MediaSummary, T)>, k: MediaType) -> Seq<(u64, u128)>
    decreases s.len(),
{
    if s.len() == 0 {
        Seq::empty()
    } else if kind_of(s.last().0.id) == k {
        keyed(s.drop_last(), k).push((s.last().0.sort_key, uuid_of(s.last().0.id)))
    } else {
        keyed(s.drop_last(), k)
    }
}

/// The id of kind `k` with UUID `u`.
pub open spec fn id_of_kind(k: MediaType, u: u128) -> MediaId {
    match k {
        MediaType::Movie => MediaId::Movie(u),
        MediaType::Series => MediaId::Series(u),
        MediaType::Season => MediaId::Season(u),
        MediaType::Episode => MediaId::Episode(u),
    }
}

/// The ids of the stored items of kind `k`, ordered by sort key, ties by UUID.
pub open spec fn sorted_ids<T>(s: Seq<(MediaSummary, T)>, k: MediaType) -> Seq<MediaId> {
    keyed(s, k).sort_by(key_leq()).map_values(|p: (u64, u128)| id_of_kind(k, p.1))
}

proof fn lemma_keyed_ids<T>(s: Seq<(MediaSummary, T)>, k: MediaType)
    ensures
        keyed(s, k).map_values(|p: (u64, u128)| id_of_kind(k, p.1)) == ids_of_kind(s, k),
        keyed(s, k).len() <= s.len(),
    decreases s.len(),
{
    if s.len() > 0 {
        lemma_keyed_ids(s.drop_last(), k);
        let id = s.last().0.id;
        if kind_of(id) == k {
            assert(id_of_kind(k, uuid_of(id)) == id);
            assert(keyed(s, k).map_values(|p: (u64, u128)| id_of_kind(k, p.1))
                =~= keyed(s.drop_last(), k).map_values(|p: (u64, u128)| id_of_kind(k, p.1)).push(id));
        } else {
            assert(keyed(s, k).map_values(|p: (u64, u128)| id_of_kind(k, p.1))
                =~= keyed(s.drop_last(), k).map_values(|p: (u64, u128)| id_of_kind(k, p.1)));
        }
    } else {
        assert(keyed(s, k).map_values(|p: (u64, u128)| id_of_kind(k, p.1)) =~= ids_of_kind(s, k));
    }
}

proof fn lemma_sorted_ids_len<T>(s: Seq<(MediaSummary, T)>, k: MediaType)
    ensures
        sorted_ids(s, k).len() <= s.len(),
{
    lemma_keyed_ids(s, k);
    lemma_key_leq_total();
    keyed(s, k).lemma_sort_by_ensures(key_leq());
    assert(keyed(s, k).sort_by(key_leq()).to_multiset().len() == keyed(s, k).to_multiset().len());
    broadcast use vstd::seq_lib::group_to_multiset_ensures;
}

/// In a store without repeated ids, the sorted ids of one kind are listed
/// once each, and they are exactly the stored ids of that kind.
pub proof fn lemma_sorted_ids_members<T>(s: Seq<(MediaSummary, T)>, k: MediaType)
    requires
        unique_entries(s),
    ensures
        sorted_ids(s, k).no_duplicates(),
        forall|x: MediaId| #[trigger] sorted_ids(s, k).contains(x) <==> (kind_of(x) == k && index_of(s, x) >= 0),
{
    let ks = keyed(s, k);
    let f = |p: (u64, u128)| id_of_kind(k, p.1);
    lemma_keyed_ids(s, k);
    lemma_ids_of_kind_members(s, k);
    lemma_key_leq_total();
    let ids = ids_of_kind(s, k);
    assert(ks.map_values(f) == ids);
    // In `ks` a UUID names one pair.
    assert forall|a: int, b: int| 0 <= a < ks.len() && 0 <= b < ks.len() && ks[a].1 == ks[b].1 implies a == b by {
        if a != b {
            assert(ids[a] == f(ks[a]) && ids[b] == f(ks[b]));
        }
    }
    assert(ks.no_duplicates());
    ks.lemma_sort_by_ensures(key_leq());
    let sorted = ks.sort_by(key_leq());
    broadcast use vstd::seq_lib::group_to_multiset_ensures;
    ks.lemma_multiset_has_no_duplicates();
    assert forall|x: (u64, u128)| sorted.to_multiset().contains(x) implies sorted.to_multiset().count(x) == 1 by {
        assert(ks.to_multiset().contains(x));
    }
    sorted.lemma_multiset_has_no_duplicates_conv();
    assert forall|x: (u64, u128)| #[trigger] sorted.contains(x) ==> ks.contains(x) by {
        if sorted.contains(x) {
            assert(sorted.to_multiset().count(x) > 0);
        }
    }
    assert forall|x: (u64, u128)| #[trigger] ks.contains(x) ==> sorted.contains(x) by {
        if ks.contains(x) {
            assert(ks.to_multiset().count(x) > 0);
        }
    }
    let out = sorted.map_values(f);
    assert(out.no_duplicates()) by {
        assert forall|a: int, b: int| 0 <= a < b < out.len() implies out[a] != out[b] by {
            assert(sorted.contains(sorted[a]) && sorted.contains(sorted[b]));
            assert(ks.contains(sorted[a]) && ks.contains(sorted[b]));
            let ia = choose|i: int| 0 <= i < ks.len() && ks[i] == sorted[a];
            let ib = choose|i: int| 0 <= i < ks.len() && ks[i] == sorted[b];
            if out[a] == out[b] {
                assert(sorted[a].1 == sorted[b].1);
                assert(ia == ib);
                assert(sorted[a] == sorted[b]);
            }
        }
    }
    assert forall|x: MediaId| #[trigger] out.contains(x) <==> ids.contains(x) by {
        if out.contains(x) {
            let i = choose|i: int| 0 <= i < out.len() && out[i] == x;
            assert(sorted.contains(sorted[i]));
            assert(ks.contains(sorted[i]));
            let j = choose|j: int| 0 <= j < ks.len() && ks[j] == sorted[i];
            assert(ids[j] == x);
        }
        if ids.contains(x) {
            let j = choose|j: int| 0 <= j < ids.len() && ids[j] == x;
            assert(ks.contains(ks[j]));
            assert(sorted.contains(ks[j]));
            let i = choose|i: int| 0 <= i < sorted.len() && sorted[i] == ks[j];
            assert(out[i] == x);
        }
    }
}

/// The sort key of the stored item `id`.
pub open spec fn stored_key<T>(s: Seq<(MediaSummary, T)>, id: MediaId) -> u64 {
    s[index_of(s, id)].0.sort_key
}

proof fn lemma_keyed_entries<T>(s: Seq<(MediaSummary, T)>, k: MediaType)
    requires
        unique_entries(s),
    ensures
        forall|t: int| 0 <= t < keyed(s, k).len() ==> index_of(s, id_of_kind(k, #[trigger] keyed(s, k)[t].1)) >= 0
            && stored_key(s, id_of_kind(k, keyed(s, k)[t].1)) == keyed(s, k)[t].0,
    decreases s.len(),
{
    if s.len() > 0 {
        let p = s.drop_last();
        assert(unique_entries(p)) by {
            assert forall|i: int, j: int| 0 <= i < j < p.len() implies (#[trigger] p[i]).0.id != (#[trigger] p[j]).0.id by {
                assert(p[i] == s[i] && p[j] == s[j]);
            }
        }
        lemma_keyed_entries(p, k);
        let last = s.last().0.id;
        assert forall|t: int| 0 <= t < keyed(s, k).len() implies index_of(s, id_of_kind(k, #[trigger] keyed(s, k)[t].1)) >= 0
            && stored_key(s, id_of_kind(k, keyed(s, k)[t].1)) == keyed(s, k)[t].0 by {
            if t < keyed(p, k).len() {
                assert(keyed(s, k)[t] == keyed(p, k)[t]);
                let id = id_of_kind(k, keyed(p, k)[t].1);
                let i = index_of(p, id);
                lemma_index_of(p, id);
                assert(p[i] == s[i]);
                assert(s[i].0.id != s[s.len() - 1].0.id);
                assert(index_of(s, id) == i);
            } else {
                assert(kind_of(last) == k);
                assert(keyed(s, k)[t] == (s.last().0.sort_key, uuid_of(last)));
                assert(id_of_kind(k, uuid_of(last)) == last);
            }
        }
    }
}

/// The rebuilt lists are in order: along the sorted ids of a kind, the
/// stored items' sort keys never decrease.
pub proof fn lemma_sorted_ids_ordered<T>(s: Seq<(MediaSummary, T)>, k: MediaType)
    requires
        unique_entries(s),
    ensures
        forall|i: int, j: int| 0 <= i < j < sorted_ids(s, k).len()
            ==> stored_key(s, #[trigger] sorted_ids(s, k)[i]) <= stored_key(s, #[trigger] sorted_ids(s, k)[j]),
{
    broadcast use vstd::seq_lib::group_to_multiset_ensures;
    let ks = keyed(s, k);
    lemma_key_leq_total();
    ks.lemma_sort_by_ensures(key_leq());
    lemma_keyed_entries(s, k);
    let sorted = ks.sort_by(key_leq());
    assert forall|i: int, j: int| 0 <= i < j < sorted_ids(s, k).len()
        implies stored_key(s, #[trigger] sorted_ids(s, k)[i]) <= stored_key(s, #[trigger] sorted_ids(s, k)[j]) by {
        assert(key_leq()(sorted[i], sorted[j]));
        assert(sorted.contains(sorted[i]) && sorted.contains(sorted[j]));
        assert(sorted.to_multiset().count(sorted[i]) > 0 && sorted.to_multiset().count(sorted[j]) > 0);
        assert(ks.contains(sorted[i]) && ks.contains(sorted[j]));
        let a = choose|a: int| 0 <= a < ks.len() && ks[a] == sorted[i];
        let b = choose|b: int| 0 <= b < ks.len() && ks[b] == sorted[j];
        assert(sorted_ids(s, k)[i] == id_of_kind(k, ks[a].1));
        assert(sorted_ids(s, k)[j] == id_of_kind(k, ks[b].1));
    }
}

/// The movie list and the series list each hold every stored movie (series)
/// exactly once, and nothing else.
pub open spec fn lists_match<T>(m: StoreModel<T>) -> bool {
    &&& m.sorted_movies.no_duplicates()
    &&& m.sorted_series.no_duplicates()
    &&& forall|x: MediaId| #[trigger] m.sorted_movies.contains(x) <==> (x is Movie && index_of(m.media, x) >= 0)
    &&& forall|x: MediaId| #[trigger] m.sorted_series.contains(x) <==> (x is Series && index_of(m.media, x) >= 0)
}

/// The store's list invariant: outside batch mode (where repeats wait for
/// the end of the batch), each list holds every stored movie (series)
/// exactly once. A new store has it and every operation keeps it, so it
/// holds after any sequence of operations.
pub open spec fn lists_consistent<T>(m: StoreModel<T>) -> bool {
    !m.batch_mode ==> lists_match(m)
}

/// In a store without repeated ids, the ids of one kind are listed once each,
/// and they are exactly the stored ids of that kind.
pub proof fn lemma_ids_of_kind_members<T>(s: Seq<(MediaSummary, T)>, k: MediaType)
    requires
        unique_entries(s),
    ensures
        ids_of_kind(s, k).no_duplicates(),
        forall|x: MediaId| #[trigger] ids_of_kind(s, k).contains(x) <==> (kind_of(x) == k && index_of(s, x) >= 0),
    decreases s.len(),
{
    if s.len() > 0 {
        let p = s.drop_last();
        assert(unique_entries(p)) by {
            assert forall|i: int, j: int| 0 <= i < j < p.len() implies (#[trigger] p[i]).0.id != (#[trigger] p[j]).0.id by {
                assert(p[i] == s[i] && p[j] == s[j]);
            }
        }
        lemma_ids_of_kind_members(p, k);
        let last = s.last().0.id;
        lemma_index_of(p, last);
        assert(index_of(p, last) < 0) by {
            if index_of(p, last) >= 0 {
                let i = index_of(p, last);
                assert(p[i] == s[i]);
                assert(s[i].0.id != s[s.len() - 1].0.id);
            }
        }
        let q = ids_of_kind(p, k);
        assert(!q.contains(last));
        if kind_of(last) == k {
            assert(ids_of_kind(s, k) == q.push(last));
            assert(ids_of_kind(s, k).no_duplicates()) by {
                assert forall|i: int, j: int| 0 <= i < j < q.len() + 1 implies q.push(last)[i] != q.push(last)[j] by {
                    if j == q.len() {
                        assert(q.push(last)[i] == q[i]);
                        assert(q.contains(q[i]));
                    } else {
                        assert(q.push(last)[i] == q[i] && q.push(last)[j] == q[j]);
                    }
                }
            }
        } else {
            assert(ids_of_kind(s, k) == q);
        }
        assert forall|x: MediaId| #[trigger] ids_of_kind(s, k).contains(x) <==> (kind_of(x) == k && index_of(s, x) >= 0) by {
            if x != last {
                assert(index_of(s, x) == index_of(p, x));
                if kind_of(last) == k {
                    assert(q.push(last).contains(x) == q.contains(x)) by {
                        if q.push(last).contains(x) {
                            let j = choose|j: int| 0 <= j < q.len() + 1 && q.push(last)[j] == x;
                            assert(j < q.len());
                            assert(q[j] == x);
                        }
                        if q.contains(x) {
                            let j = choose|j: int| 0 <= j < q.len() && q[j] == x;
                            assert(q.push(last)[j] == x);
                        }
                    }
                }
            } else {
                assert(index_of(s, x) == s.len() - 1);
                if kind_of(last) == k {
                    assert(q.push(last)[q.len() as int] == last);
                }
            }
        }
    }
}

/// Whether some entry of `s` has id `x`.
proof fn lemma_stored_iff<T>(s: Seq<(MediaSummary, T)>, x: MediaId)
    ensures
        index_of(s, x) >= 0 <==> exists|j: int| 0 <= j < s.len() && (#[trigger] s[j]).0.id == x,
{
    lemma_index_of(s, x);
    if index_of(s, x) >= 0 {
        let j = index_of(s, x);
        assert(s[j].0.id == x);
    }
}

/// Outside batch mode an upsert keeps each list holding every stored movie
/// (series) exactly once.
proof fn lemma_upsert_keeps_lists<T>(m: StoreModel<T>, sm: MediaSummary, p: T)
    requires
        !m.batch_mode,
        lists_match(m),
        unique_entries(upsert_model(m, sm, p).media),
    ensures
        lists_match(upsert_model(m, sm, p)),
{
    let r = upsert_model(m, sm, p);
    let id = sm.id;
    lemma_index_of(m.media, id);
    let i = index_of(m.media, id);
    if i >= 0 && keeps_details(m.media[i].0, sm) {
        assert(r.media == m.media);
    } else {
        assert forall|x: MediaId| x != id implies (index_of(r.media, x) >= 0 <==> index_of(m.media, x) >= 0) by {
            lemma_stored_iff(r.media, x);
            lemma_stored_iff(m.media, x);
            if index_of(m.media, x) >= 0 {
                let j = choose|j: int| 0 <= j < m.media.len() && (#[trigger] m.media[j]).0.id == x;
                if i >= 0 {
                    assert(j != i);
                    assert(r.media[j] == m.media[j]);
                } else {
                    assert(r.media[j] == m.media[j]);
                }
            }
            if index_of(r.media, x) >= 0 {
                let j = choose|j: int| 0 <= j < r.media.len() && (#[trigger] r.media[j]).0.id == x;
                if i >= 0 {
                    assert(j != i);
                    assert(r.media[j] == m.media[j]);
                } else {
                    assert(j < m.media.len());
                    assert(r.media[j] == m.media[j]);
                }
            }
        }
        lemma_sorted_ids_members(r.media, MediaType::Movie);
        lemma_sorted_ids_members(r.media, MediaType::Series);
        if id is Movie {
            assert forall|x: MediaId| #[trigger] r.sorted_movies.contains(x) <==> (x is Movie && index_of(r.media, x) >= 0) by {
                assert((kind_of(x) == MediaType::Movie) == (x is Movie));
            }
            assert forall|x: MediaId| #[trigger] r.sorted_series.contains(x) <==> (x is Series && index_of(r.media, x) >= 0) by {
                assert(m.sorted_series.contains(x) <==> (x is Series && index_of(m.media, x) >= 0));
            }
        } else if id is Series {
            assert forall|x: MediaId| #[trigger] r.sorted_series.contains(x) <==> (x is Series && index_of(r.media, x) >= 0) by {
                assert((kind_of(x) == MediaType::Series) == (x is Series));
            }
            assert forall|x: MediaId| #[trigger] r.sorted_movies.contains(x) <==> (x is Movie && index_of(r.media, x) >= 0) by {
                assert(m.sorted_movies.contains(x) <==> (x is Movie && index_of(m.media, x) >= 0));
            }
        } else {
            assert forall|x: MediaId| #[trigger] r.sorted_series.contains(x) <==> (x is Series && index_of(r.media, x) >= 0) by {
                assert(m.sorted_series.contains(x) <==> (x is Series && index_of(m.media, x) >= 0));
            }
            assert forall|x: MediaId| #[trigger] r.sorted_movies.contains(x) <==> (x is Movie && index_of(r.media, x) >= 0) by {
                assert(m.sorted_movies.contains(x) <==> (x is Movie && index_of(m.media, x) >= 0));
            }
        }
    }
}

proof fn lemma_lists_rebuilt<T>(m: StoreModel<T>)
    requires
        unique_entries(m.media),
        m.sorted_movies == sorted_ids(m.media, MediaType::Movie),
        m.sorted_series == sorted_ids(m.media, MediaType::Series),
    ensures
        lists_match(m),
{
    lemma_sorted_ids_members(m.media, MediaType::Movie);
    lemma_sorted_ids_members(m.media, MediaType::Series);
    assert forall|x: MediaId| #[trigger] m.sorted_movies.contains(x) <==> (x is Movie && index_of(m.media, x) >= 0) by {
        assert((kind_of(x) == MediaType::Movie) == (x is Movie));
    }
    assert forall|x: MediaId| #[trigger] m.sorted_series.contains(x) <==> (x is Series && index_of(m.media, x) >= 0) by {
        assert((kind_of(x) == MediaType::Series) == (x is Series));
    }
}

/// The payloads of the children (seasons of a series, or episodes of a
/// season) of `parent`, in storage order.
pub open spec fn children_of<T>(s: Seq<(MediaSummary, T)>, k: MediaType, parent: u128) -> Seq<T>
    decreases s.len(),
{
    if s.len() == 0 {
        Seq::empty()
    } else {
        let e = s.last().0;
        let hit = kind_of(e.id) == k && (if k == MediaType::Season { e.series_id == parent } else { e.season_id == parent });
        if hit {
            children_of(s.drop_last(), k, parent).push(s.last().1)
        } else {
            children_of(s.drop_last(), k, parent)
        }
    }
}

/// The payloads listed by a display list: for each id in order, filtered by
/// library when one is given, the stored payload of that kind.
pub open spec fn listed<T>(m: StoreModel<T>, order: Seq<MediaId>, k: MediaType, library: Option<u128>) -> Seq<T>
    decreases order.len(),
{
    if order.len() == 0 {
        Seq::empty()
    } else {
        let rest = listed(m, order.drop_last(), k, library);
        let id = order.last();
        let in_library = match library {
            Some(l) => m.by_library.contains((l, id)),
            None => true,
        };
        match lookup(m.media, id) {
            Some(entry) => if in_library && kind_of(id) == k { rest.push(entry.1) } else { rest },
            None => rest,
        }
    }
}

/// The refs of a vector of references, dereferenced.
pub open spec fn derefs<T>(v: Seq<&T>) -> Seq<T> {
    v.map_values(|x: &T| *x)
}

impl<T> MediaStore<T> {
    /// All stored movies (storage order).
    pub fn get_all_movies(&self) -> (r: Vec<&T>)
        ensures
            derefs(r@) == payloads_of_kind(self.model().media, MediaType::Movie),
    {
        self.all_of_kind(MediaType::Movie)
    }

    /// All stored series (storage order).
    pub fn get_all_series(&self) -> (r: Vec<&T>)
        ensures
            derefs(r@) == payloads_of_kind(self.model().media, MediaType::Series),
    {
        self.all_of_kind(MediaType::Series)
    }

    fn all_of_kind(&self, k: MediaType) -> (r: Vec<&T>)
        ensures
            derefs(r@) == payloads_of_kind(self.model().media, k),
    {
        proof {
            self.reveal_model();
        }
        let mut r: Vec<&T> = Vec::new();
        let mut i: usize = 0;
        while i < self.media.len()
            invariant
                i <= self.media@.len(),
                derefs(r@) == payloads_of_kind(self.media@.take(i as int), k),
            decreases self.media@.len() - i,
        {
            proof {
                assert(self.media@.take(i + 1).drop_last() == self.media@.take(i as int));
            }
            let e = &self.media[i];
            if media_type_of(&e.0.id) == k {
                r.push(&e.1);
                proof {
                    assert(derefs(r@) =~= payloads_of_kind(self.media@.take(i + 1), k));
                }
            }
            i += 1;
        }
        proof {
            assert(self.media@.take(self.media@.len() as int) == self.media@);
        }
        r
    }
}


/// The elements of `s` satisfying `f`, in order.
pub open spec fn keep<A>(s: Seq<A>, f: spec_fn(A) -> bool) -> Seq<A>
    decreases s.len(),
{
    if s.len() == 0 {
        Seq::empty()
    } else if f(s.last()) {
        keep(s.drop_last(), f).push(s.last())
    } else {
        keep(s.drop_last(), f)
    }
}

/// Entries not indexed under library `lib`.
pub open spec fn outside_library_entry<T>(pairs: Seq<(u128, MediaId)>, lib: u128) -> spec_fn((MediaSummary, T)) -> bool {
    |e: (MediaSummary, T)| !pairs.contains((lib, e.0.id))
}

/// Ids not indexed under library `lib`.
pub open spec fn outside_library_id(pairs: Seq<(u128, MediaId)>, lib: u128) -> spec_fn(MediaId) -> bool {
    |id: MediaId| !pairs.contains((lib, id))
}

/// Index pairs of libraries other than `lib`.
pub open spec fn other_library_pair(lib: u128) -> spec_fn((u128, MediaId)) -> bool {
    |p: (u128, MediaId)| p.0 != lib
}

/// The store after dropping everything indexed under library `lib`: those
/// items, their index entries, and their places in the movie and series lists.
pub open spec fn clear_library_model<T>(m: StoreModel<T>, lib: u128) -> StoreModel<T> {
    StoreModel {
        media: keep(m.media, outside_library_entry(m.by_library, lib)),
        by_library: keep(m.by_library, other_library_pair(lib)),
        sorted_movies: keep(m.sorted_movies, outside_library_id(m.by_library, lib)),
        sorted_series: keep(m.sorted_series, outside_library_id(m.by_library, lib)),
        ..m
    }
}

proof fn lemma_keep_iff<A>(s: Seq<A>, f: spec_fn(A) -> bool)
    ensures
        forall|y: A| #[trigger] keep(s, f).contains(y) <==> (s.contains(y) && f(y)),
    decreases s.len(),
{
    if s.len() > 0 {
        let p = s.drop_last();
        lemma_keep_iff(p, f);
        assert forall|y: A| #[trigger] keep(s, f).contains(y) <==> (s.contains(y) && f(y)) by {
            assert(s.contains(y) <==> (p.contains(y) || y == s.last())) by {
                if s.contains(y) {
                    let j = choose|j: int| 0 <= j < s.len() && s[j] == y;
                    if j < p.len() {
                        assert(p[j] == y);
                    }
                }
                if p.contains(y) {
                    let j = choose|j: int| 0 <= j < p.len() && p[j] == y;
                    assert(s[j] == y);
                }
                if y == s.last() {
                    assert(s[s.len() - 1] == y);
                }
            }
            if f(s.last()) {
                let w = keep(p, f);
                assert(keep(s, f) == w.push(s.last()));
                assert(w.push(s.last()).contains(y) <==> (w.contains(y) || y == s.last())) by {
                    if w.push(s.last()).contains(y) {
                        let j = choose|j: int| 0 <= j < w.len() + 1 && w.push(s.last())[j] == y;
                        if j < w.len() {
                            assert(w[j] == y);
                        }
                    }
                    if w.contains(y) {
                        let j = choose|j: int| 0 <= j < w.len() && w[j] == y;
                        assert(w.push(s.last())[j] == y);
                    }
                    if y == s.last() {
                        assert(w.push(s.last())[w.len() as int] == y);
                    }
                }
            } else {
                assert(keep(s, f) == keep(p, f));
            }
        }
    }
}

/// Clearing a library keeps each list holding every stored movie (series)
/// exactly once.
proof fn lemma_clear_keeps_lists<T>(m: StoreModel<T>, lib: u128)
    requires
        unique_entries(m.media),
        lists_match(m),
    ensures
        lists_match(clear_library_model(m, lib)),
{
    let r = clear_library_model(m, lib);
    let fe = outside_library_entry::<T>(m.by_library, lib);
    let fi = outside_library_id(m.by_library, lib);
    lemma_keep(m.sorted_movies, fi);
    lemma_keep(m.sorted_series, fi);
    lemma_keep_iff(m.sorted_movies, fi);
    lemma_keep_iff(m.sorted_series, fi);
    lemma_keep_iff(m.media, fe);
    assert forall|x: MediaId| (index_of(r.media, x) >= 0 <==> (index_of(m.media, x) >= 0 && fi(x))) by {
        lemma_stored_iff(r.media, x);
        lemma_stored_iff(m.media, x);
        if index_of(m.media, x) >= 0 && fi(x) {
            let j = choose|j: int| 0 <= j < m.media.len() && (#[trigger] m.media[j]).0.id == x;
            assert(m.media.contains(m.media[j]));
            assert(fe(m.media[j]));
            assert(r.media.contains(m.media[j]));
            let t = choose|t: int| 0 <= t < r.media.len() && r.media[t] == m.media[j];
            assert(r.media[t].0.id == x);
        }
        if index_of(r.media, x) >= 0 {
            let t = choose|t: int| 0 <= t < r.media.len() && (#[trigger] r.media[t]).0.id == x;
            assert(r.media.contains(r.media[t]));
            assert(m.media.contains(r.media[t]) && fe(r.media[t]));
            let j = choose|j: int| 0 <= j < m.media.len() && m.media[j] == r.media[t];
            assert(m.media[j].0.id == x);
        }
    }
    assert forall|x: MediaId| #[trigger] r.sorted_movies.contains(x) <==> (x is Movie && index_of(r.media, x) >= 0) by {
        assert(m.sorted_movies.contains(x) <==> (x is Movie && index_of(m.media, x) >= 0));
    }
    assert forall|x: MediaId| #[trigger] r.sorted_series.contains(x) <==> (x is Series && index_of(r.media, x) >= 0) by {
        assert(m.sorted_series.contains(x) <==> (x is Series && index_of(m.media, x) >= 0));
    }
}

proof fn lemma_keep<A>(s: Seq<A>, f: spec_fn(A) -> bool)
    ensures
        keep(s, f).len() <= s.len(),
        forall|y: A| #[trigger] keep(s, f).contains(y) ==> s.contains(y),
        s.no_duplicates() ==> keep(s, f).no_duplicates(),
    decreases s.len(),
{
    if s.len() > 0 {
        let p = s.drop_last();
        let l = s.last();
        lemma_keep(p, f);
        let w = keep(p, f);
        assert forall|y: A| #[trigger] keep(s, f).contains(y) implies s.contains(y) by {
            let r = keep(s, f);
            let j = choose|j: int| 0 <= j < r.len() && r[j] == y;
            if f(l) && j == w.len() {
                assert(s[s.len() - 1] == y);
            } else {
                assert(w[j] == y);
                assert(w.contains(y));
                let k = choose|k: int| 0 <= k < p.len() && p[k] == y;
                assert(s[k] == y);
            }
        }
        if s.no_duplicates() {
            assert(p.no_duplicates()) by {
                assert forall|a: int, b: int| 0 <= a < p.len() && 0 <= b < p.len() && a != b implies p[a] != p[b] by {
                    assert(p[a] == s[a] && p[b] == s[b]);
                }
            }
            if f(l) {
                let w2 = w.push(l);
                assert forall|a: int, b: int| 0 <= a < w2.len() && 0 <= b < w2.len() && a != b implies w2[a] != w2[b] by {
                    if b == w.len() || a == w.len() {
                        let c = if b == w.len() { a } else { b };
                        assert(w2[c] == w[c]);
                        assert(w.contains(w[c]));
                        let k = choose|k: int| 0 <= k < p.len() && p[k] == w[c];
                        assert(s[k] == w[c] && s[s.len() - 1] == l);
                    } else {
                        assert(w2[a] == w[a] && w2[b] == w[b]);
                    }
                }
            }
        }
    }
}

proof fn lemma_keep_unique<T>(s: Seq<(MediaSummary, T)>, f: spec_fn((MediaSummary, T)) -> bool)
    requires
        unique_entries(s),
    ensures
        unique_entries(keep(s, f)),
    decreases s.len(),
{
    if s.len() > 0 {
        let p = s.drop_last();
        let l = s.last();
        assert(unique_entries(p)) by {
            assert forall|a: int, b: int| 0 <= a < b < p.len() implies (#[trigger] p[a]).0.id != (#[trigger] p[b]).0.id by {
                assert(p[a] == s[a] && p[b] == s[b]);
            }
        }
        lemma_keep_unique(p, f);
        lemma_keep(p, f);
        let w = keep(p, f);
        if f(l) {
            let w2 = w.push(l);
            assert forall|a: int, b: int| 0 <= a < b < w2.len() implies (#[trigger] w2[a]).0.id != (#[trigger] w2[b]).0.id by {
                if b == w.len() {
                    assert(w2[a] == w[a]);
                    assert(w.contains(w[a]));
                    let k = choose|k: int| 0 <= k < p.len() && p[k] == w[a];
                    assert(s[k] == w[a] && s[s.len() - 1] == l);
                } else {
                    assert(w2[a] == w[a] && w2[b] == w[b]);
                }
            }
        }
    }
}

/// Whether a library holds a movie or series with full details.
pub open spec fn has_sortable<T>(m: StoreModel<T>, lib: u128) -> bool {
    exists|i: int| 0 <= i < m.media.len() && #[trigger] m.by_library.contains((lib, m.media[i].0.id))
        && (m.media[i].0.id is Movie || m.media[i].0.id is Series) && m.media[i].0.has_details
}

impl<T> MediaStore<T> {
    fn listed_from(&self, order: &Vec<MediaId>, k: MediaType, library: Option<u128>) -> (r: Vec<&T>)
        ensures
            derefs(r@) == listed(self.model(), order@, k, library),
    {
        let mut r: Vec<&T> = Vec::new();
        let mut i: usize = 0;
        while i < order.len()
            invariant
                i <= order@.len(),
                derefs(r@) == listed(self.model(), order@.take(i as int), k, library),
            decreases order@.len() - i,
        {
            proof {
                assert(order@.take(i + 1).drop_last() == order@.take(i as int));
                assert(order@.take(i + 1).last() == order@[i as int]);
            }
            let id = order[i];
            let in_library = match library {
                Some(l) => self.library_indexed(l, &id),
                None => true,
            };
            if in_library && media_type_of(&id) == k {
                match self.find(&id) {
                    Some(j) => {
                        proof {
                            self.reveal_model();
                        }
                        r.push(&self.media[j].1);
                        proof {
                            assert(derefs(r@) =~= listed(self.model(), order@.take(i + 1), k, library));
                        }
                    },
                    None => {},
                }
            }
            i += 1;
        }
        proof {
            assert(order@.take(order@.len() as int) == order@);
        }
        r
    }

    /// The movies in display order, only those of `library` when given.
    pub fn get_movies(&self, library: Option<u128>) -> (r: Vec<&T>)
        ensures
            derefs(r@) == listed(self.model(), self.model().sorted_movies, MediaType::Movie, library),
    {
        proof {
            self.reveal_model();
        }
        self.listed_from(&self.sorted_movie_ids, MediaType::Movie, library)
    }

    /// The series in display order, only those of `library` when given.
    pub fn get_series(&self, library: Option<u128>) -> (r: Vec<&T>)
        ensures
            derefs(r@) == listed(self.model(), self.model().sorted_series, MediaType::Series, library),
    {
        proof {
            self.reveal_model();
        }
        self.listed_from(&self.sorted_series_ids, MediaType::Series, library)
    }

    fn children(&self, k: MediaType, parent: u128) -> (r: Vec<&T>)
        ensures
            derefs(r@) == children_of(self.model().media, k, parent),
    {
        proof {
            self.reveal_model();
        }
        let mut r: Vec<&T> = Vec::new();
        let mut i: usize = 0;
        while i < self.media.len()
            invariant
                i <= self.media@.len(),
                derefs(r@) == children_of(self.media@.take(i as int), k, parent),
            decreases self.media@.len() - i,
        {
            proof {
                assert(self.media@.take(i + 1).drop_last() == self.media@.take(i as int));
            }
            let e = &self.media[i];
            let hit = media_type_of(&e.0.id) == k && (if k == MediaType::Season { e.0.series_id == parent } else { e.0.season_id == parent });
            if hit {
                r.push(&e.1);
                proof {
                    assert(derefs(r@) =~= children_of(self.media@.take(i + 1), k, parent));
                }
            }
            i += 1;
        }
        proof {
            assert(self.media@.take(self.media@.len() as int) == self.media@);
        }
        r
    }

    /// The seasons of series `series_id`.
    pub fn get_seasons(&self, series_id: u128) -> (r: Vec<&T>)
        ensures
            derefs(r@) == children_of(self.model().media, MediaType::Season, series_id),
    {
        self.children(MediaType::Season, series_id)
    }

    /// The episodes of season `season_id`.
    pub fn get_episodes(&self, season_id: u128) -> (r: Vec<&T>)
        ensures
            derefs(r@) == children_of(self.model().media, MediaType::Episode, season_id),
    {
        self.children(MediaType::Episode, season_id)
    }

    /// The ids of the stored movies, for the caller to put in display order.
    pub fn movie_ids(&self) -> (r: Vec<MediaId>)
        ensures
            r@ == ids_of_kind(self.model().media, MediaType::Movie),
    {
        self.ids_of(MediaType::Movie)
    }

    /// The ids of the stored series, for the caller to put in display order.
    pub fn series_ids(&self) -> (r: Vec<MediaId>)
        ensures
            r@ == ids_of_kind(self.model().media, MediaType::Series),
    {
        self.ids_of(MediaType::Series)
    }

    fn keyed_of(&self, k: MediaType) -> (r: Vec<(u64, u128)>)
        ensures
            r@ == keyed(self.model().media, k),
    {
        proof {
            self.reveal_model();
        }
        let mut r: Vec<(u64, u128)> = Vec::new();
        let mut i: usize = 0;
        while i < self.media.len()
            invariant
                i <= self.media@.len(),
                r@ == keyed(self.media@.take(i as int), k),
            decreases self.media@.len() - i,
        {
            proof {
                assert(self.media@.take(i + 1).drop_last() == self.media@.take(i as int));
            }
            let e = self.media[i].0;
            if media_type_of(&e.id) == k {
                r.push((e.sort_key, uuid_exec(&e.id)));
            }
            i += 1;
        }
        proof {
            assert(self.media@.take(self.media@.len() as int) == self.media@);
        }
        r
    }

    /// The ids of the stored items of kind `k`, ordered by sort key, ties by UUID.
    fn sorted_ids_of(&self, k: MediaType) -> (r: Vec<MediaId>)
        ensures
            r@ == sorted_ids(self.model().media, k),
    {
        let keys = self.keyed_of(k);
        let sorted = sort_keyed(&keys);
        let mut r: Vec<MediaId> = Vec::new();
        let mut i: usize = 0;
        while i < sorted.len()
            invariant
                i <= sorted@.len(),
                r@ == sorted@.take(i as int).map_values(|p: (u64, u128)| id_of_kind(k, p.1)),
            decreases sorted@.len() - i,
        {
            let u = sorted[i].1;
            let id = match k {
                MediaType::Movie => MediaId::Movie(u),
                MediaType::Series => MediaId::Series(u),
                MediaType::Season => MediaId::Season(u),
                MediaType::Episode => MediaId::Episode(u),
            };
            r.push(id);
            proof {
                assert(sorted@.take(i + 1).map_values(|p: (u64, u128)| id_of_kind(k, p.1))
                    =~= sorted@.take(i as int).map_values(|p: (u64, u128)| id_of_kind(k, p.1)).push(id));
            }
            i += 1;
        }
        proof {
            assert(sorted@.take(sorted@.len() as int) == sorted@);
        }
        r
    }

    fn ids_of(&self, k: MediaType) -> (r: Vec<MediaId>)
        ensures
            r@ == ids_of_kind(self.model().media, k),
    {
        proof {
            self.reveal_model();
        }
        let mut r: Vec<MediaId> = Vec::new();
        let mut i: usize = 0;
        while i < self.media.len()
            invariant
                i <= self.media@.len(),
                r@ == ids_of_kind(self.media@.take(i as int), k),
            decreases self.media@.len() - i,
        {
            proof {
                assert(self.media@.take(i + 1).drop_last() == self.media@.take(i as int));
            }
            let id = self.media[i].0.id;
            if media_type_of(&id) == k {
                r.push(id);
            }
            i += 1;
        }
        proof {
            assert(self.media@.take(self.media@.len() as int) == self.media@);
        }
        r
    }

    /// Take a movie display order the caller computed for criteria that
    /// sort keys cannot express (consecutive repeats collapsed), when it
    /// lists every stored movie exactly once. Any other order is refused and
    /// the store left as it was.
    pub fn set_sorted_movie_ids(&mut self, order: Vec<MediaId>) -> (accepted: bool)
        requires
            old(self).wf(),
        ensures
            lists_consistent(old(self).model()) ==> lists_consistent(final(self).model()),
            final(self).wf(),
            accepted == same_members(dedup_consecutive(order@), ids_of_kind(old(self).model().media, MediaType::Movie)),
            final(self).model() == if accepted {
                StoreModel { sorted_movies: dedup_consecutive(order@), ..old(self).model() }
            } else {
                old(self).model()
            },
            lists_match(old(self).model()) ==> lists_match(final(self).model()),
    {
        let d = dedup(order);
        let stored = self.ids_of(MediaType::Movie);
        if !same_members_exec(&d, &stored) {
            return false;
        }
        proof {
            self.reveal_model();
            lemma_ids_of_kind_members(self.media@, MediaType::Movie);
            assert forall|x: MediaId| #[trigger] d@.contains(x) <==> (x is Movie && index_of(self.media@, x) >= 0) by {
                assert((kind_of(x) == MediaType::Movie) == (x is Movie));
                assert(d@.contains(x) == stored@.contains(x));
            }
        }
        self.sorted_movie_ids = d;
        proof {
            self.reveal_model();
        }
        true
    }

    /// Take a series display order the caller computed for criteria that
    /// sort keys cannot express (consecutive repeats collapsed), when it
    /// lists every stored series exactly once. Any other order is refused
    /// and the store left as it was.
    pub fn set_sorted_series_ids(&mut self, order: Vec<MediaId>) -> (accepted: bool)
        requires
            old(self).wf(),
        ensures
            lists_consistent(old(self).model()) ==> lists_consistent(final(self).model()),
            final(self).wf(),
            accepted == same_members(dedup_consecutive(order@), ids_of_kind(old(self).model().media, MediaType::Series)),
            final(self).model() == if accepted {
                StoreModel { sorted_series: dedup_consecutive(order@), ..old(self).model() }
            } else {
                old(self).model()
            },
            lists_match(old(self).model()) ==> lists_match(final(self).model()),
    {
        let d = dedup(order);
        let stored = self.ids_of(MediaType::Series);
        if !same_members_exec(&d, &stored) {
            return false;
        }
        proof {
            self.reveal_model();
            lemma_ids_of_kind_members(self.media@, MediaType::Series);
            assert forall|x: MediaId| #[trigger] d@.contains(x) <==> (x is Series && index_of(self.media@, x) >= 0) by {
                assert((kind_of(x) == MediaType::Series) == (x is Series));
                assert(d@.contains(x) == stored@.contains(x));
            }
        }
        self.sorted_series_ids = d;
        proof {
            self.reveal_model();
        }
        true
    }

    /// Signal subscribers that a batch of changes is complete (as after a
    /// change of sort order).
    pub fn notify_batch_complete(&mut self)
        requires
            old(self).wf(),
        ensures
            lists_consistent(old(self).model()) ==> lists_consistent(final(self).model()),
            final(self).wf(),
            final(self).model() == (StoreModel { batch_completions: 1, ..old(self).model() }),
    {
        self.batch_complete = true;
        proof {
            self.reveal_model();
        }
    }

    /// Hand over the change events to deliver and whether a batch completed.
    pub fn take_notifications(&mut self) -> (r: (Vec<MediaChangeEvent>, bool))
        requires
            old(self).wf(),
        ensures
            lists_consistent(old(self).model()) ==> lists_consistent(final(self).model()),
            final(self).wf(),
            r.0@ == old(self).model().outbox,
            r.1 == (old(self).model().batch_completions > 0),
            final(self).model() == (StoreModel { outbox: Seq::empty(), batch_completions: 0, ..old(self).model() }),
    {
        proof {
            self.reveal_model();
        }
        let mut events: Vec<MediaChangeEvent> = Vec::new();
        std::mem::swap(&mut events, &mut self.outbox);
        let done = self.batch_complete;
        self.batch_complete = false;
        proof {
            self.reveal_model();
        }
        (events, done)
    }

    /// The library an item names (its own, or its file's), if stored.
    pub fn get_library_id(&self, id: &MediaId) -> (r: Option<u128>)
        ensures
            match lookup(self.model().media, *id) {
                Some(e) => r == Some(e.0.library_id),
                None => r is None,
            },
    {
        match self.summary(id) {
            Some(s) => Some(s.library_id),
            None => None,
        }
    }

    /// Whether library `lib` holds a movie or series with full details.
    pub fn library_has_sortable_media(&self, lib: u128) -> (b: bool)
        ensures
            b == has_sortable(self.model(), lib),
    {
        proof {
            self.reveal_model();
        }
        let mut i: usize = 0;
        while i < self.media.len()
            invariant
                i <= self.media@.len(),
                forall|t: int| 0 <= t < i ==> !(#[trigger] self.model().by_library.contains((lib, self.media@[t].0.id))
                    && (self.media@[t].0.id is Movie || self.media@[t].0.id is Series) && self.media@[t].0.has_details),
            decreases self.media@.len() - i,
        {
            let e = self.media[i].0;
            let sortable = (matches!(e.id, MediaId::Movie(_)) || matches!(e.id, MediaId::Series(_))) && e.has_details;
            if sortable && self.library_indexed(lib, &e.id) {
                proof {
                    self.reveal_model();
                    assert(self.model().media[i as int] == self.media@[i as int]);
                }
                return true;
            }
            i += 1;
        }
        false
    }

    /// Drop everything indexed under library `lib` (see `clear_library_model`).
    pub fn clear_library(&mut self, lib: u128)
        requires
            old(self).wf(),
        ensures
            lists_consistent(old(self).model()) ==> lists_consistent(final(self).model()),
            final(self).wf(),
            final(self).model() == clear_library_model(old(self).model(), lib),
            lists_match(old(self).model()) ==> lists_match(final(self).model()),
    {
        proof {
            self.reveal_model();
        }
        let ghost m = self.model();
        let ghost fe = outside_library_entry::<T>(m.by_library, lib);
        let mut media: Vec<(MediaSummary, T)> = Vec::new();
        std::mem::swap(&mut media, &mut self.media);
        let ghost all = media@;
        let n = media.len();
        let mut kept: Vec<(MediaSummary, T)> = Vec::new();
        let mut k: usize = 0;
        while media.len() > 0
            invariant
                k <= all.len(),
                all.len() == n,
                media@ == all.skip(k as int),
                self.by_library@ == m.by_library,
                kept@ == keep(all.take(k as int), fe),
                fe == outside_library_entry::<T>(m.by_library, lib),
            decreases media@.len(),
        {
            proof {
                assert(all.skip(k as int)[0] == all[k as int]);
                assert(all.skip(k as int).remove(0) == all.skip(k + 1));
                assert(all.take(k + 1).drop_last() == all.take(k as int));
                assert(all.take(k + 1).last() == all[k as int]);
                self.reveal_model();
            }
            let e = media.remove(0);
            if !pair_listed(&self.by_library, lib, &e.0.id) {
                kept.push(e);
            }
            k = k + 1;
        }
        proof {
            assert(all.take(k as int) == all);
        }
        let movies = filter_out_library(&self.sorted_movie_ids, &self.by_library, lib);
        let series = filter_out_library(&self.sorted_series_ids, &self.by_library, lib);
        self.sorted_movie_ids = movies;
        self.sorted_series_ids = series;
        let ghost fp = other_library_pair(lib);
        let mut pairs: Vec<(u128, MediaId)> = Vec::new();
        let mut i: usize = 0;
        while i < self.by_library.len()
            invariant
                i <= self.by_library@.len(),
                self.by_library@ == m.by_library,
                pairs@ == keep(m.by_library.take(i as int), fp),
                fp == other_library_pair(lib),
            decreases self.by_library@.len() - i,
        {
            proof {
                assert(m.by_library.take(i + 1).drop_last() == m.by_library.take(i as int));
            }
            let p = self.by_library[i];
            if p.0 != lib {
                pairs.push(p);
            }
            i += 1;
        }
        proof {
            assert(m.by_library.take(m.by_library.len() as int) == m.by_library);
        }
        self.by_library = pairs;
        self.media = kept;
        proof {
            self.reveal_model();
            lemma_keep_unique(all, fe);
            lemma_keep(m.by_library, fp);
            if lists_match(m) {
                lemma_clear_keeps_lists(m, lib);
            }
        }
    }

    /// Drop all stored items, the library index, both display lists and the
    /// queued events (the series map and deferred items stay).
    pub fn clear(&mut self)
        requires
            old(self).wf(),
        ensures
            lists_consistent(old(self).model()) ==> lists_consistent(final(self).model()),
            final(self).wf(),
            final(self).model() == (StoreModel {
                media: Seq::empty(),
                by_library: Seq::empty(),
                sorted_movies: Seq::empty(),
                sorted_series: Seq::empty(),
                pending_events: Seq::empty(),
                ..old(self).model()
            }),
            lists_match(final(self).model()),
    {
        self.media = Vec::new();
        self.by_library = Vec::new();
        self.sorted_movie_ids = Vec::new();
        self.sorted_series_ids = Vec::new();
        self.pending_events = Vec::new();
        proof {
            self.reveal_model();
        }
    }
}

/// `a` lists each of its ids once, and the same ids as `b`.
pub open spec fn same_members(a: Seq<MediaId>, b: Seq<MediaId>) -> bool {
    a.no_duplicates() && forall|x: MediaId| #[trigger] a.contains(x) <==> b.contains(x)
}

fn id_listed(v: &Vec<MediaId>, x: MediaId) -> (b: bool)
    ensures
        b == v@.contains(x),
{
    let mut i: usize = 0;
    while i < v.len()
        invariant
            i <= v@.len(),
            forall|j: int| 0 <= j < i ==> v@[j] != x,
        decreases v@.len() - i,
    {
        if v[i] == x {
            return true;
        }
        i += 1;
    }
    false
}

fn same_members_exec(a: &Vec<MediaId>, b: &Vec<MediaId>) -> (r: bool)
    ensures
        r == same_members(a@, b@),
{
    let mut i: usize = 0;
    while i < a.len()
        invariant
            i <= a@.len(),
            forall|p: int, q: int| 0 <= p < q < i ==> a@[p] != a@[q],
            forall|p: int| 0 <= p < i ==> b@.contains(#[trigger] a@[p]),
        decreases a@.len() - i,
    {
        let x = a[i];
        let mut j: usize = 0;
        while j < i
            invariant
                j <= i < a@.len(),
                x == a@[i as int],
                forall|q: int| 0 <= q < j ==> a@[q] != x,
            decreases i - j,
        {
            if a[j] == x {
                assert(!a@.no_duplicates());
                return false;
            }
            j += 1;
        }
        if !id_listed(b, x) {
            assert(!(a@.contains(x) <==> b@.contains(x)));
            return false;
        }
        i += 1;
    }
    let mut k: usize = 0;
    while k < b.len()
        invariant
            k <= b@.len(),
            a@.no_duplicates(),
            forall|p: int| 0 <= p < a@.len() ==> b@.contains(#[trigger] a@[p]),
            forall|q: int| 0 <= q < k ==> a@.contains(#[trigger] b@[q]),
        decreases b@.len() - k,
    {
        if !id_listed(a, b[k]) {
            assert(b@.contains(b@[k as int]));
            return false;
        }
        k += 1;
    }
    proof {
        assert forall|x: MediaId| #[trigger] a@.contains(x) <==> b@.contains(x) by {
            if a@.contains(x) {
                let p = choose|p: int| 0 <= p < a@.len() && a@[p] == x;
                assert(b@.contains(a@[p]));
            }
            if b@.contains(x) {
                let q = choose|q: int| 0 <= q < b@.len() && b@[q] == x;
                assert(a@.contains(b@[q]));
            }
        }
    }
    true
}

fn dedup(v: Vec<MediaId>) -> (r: Vec<MediaId>)
    ensures
        r@ == dedup_consecutive(v@),
{
    let mut r: Vec<MediaId> = Vec::new();
    let mut i: usize = 0;
    while i < v.len()
        invariant
            i <= v@.len(),
            r@ == dedup_consecutive(v@.take(i as int)),
            i > 0 ==> r@.len() > 0 && r@.last() == v@[i - 1],
        decreases v@.len() - i,
    {
        proof {
            assert(v@.take(i + 1).drop_last() == v@.take(i as int));
            if i > 0 {
                assert(v@.take(i + 1)[i - 1] == v@[i - 1]);
            }
        }
        let x = v[i];
        if i == 0 || x != v[i - 1] {
            r.push(x);
        }
        proof {
            lemma_dedup_last(v@.take(i + 1));
        }
        i += 1;
    }
    proof {
        assert(v@.take(v@.len() as int) == v@);
    }
    r
}

proof fn lemma_dedup_last<A>(s: Seq<A>)
    requires
        s.len() > 0,
    ensures
        dedup_consecutive(s).len() > 0,
        dedup_consecutive(s).last() == s.last(),
    decreases s.len(),
{
    if s.len() > 1 {
        lemma_dedup_last(s.drop_last());
    }
}

fn filter_out_library(ids: &Vec<MediaId>, pairs: &Vec<(u128, MediaId)>, lib: u128) -> (r: Vec<MediaId>)
    ensures
        r@ == keep(ids@, outside_library_id(pairs@, lib)),
{
    let ghost f = outside_library_id(pairs@, lib);
    let mut r: Vec<MediaId> = Vec::new();
    let mut i: usize = 0;
    while i < ids.len()
        invariant
            i <= ids@.len(),
            f == outside_library_id(pairs@, lib),
            r@ == keep(ids@.take(i as int), f),
        decreases ids@.len() - i,
    {
        proof {
            assert(ids@.take(i + 1).drop_last() == ids@.take(i as int));
        }
        let id = ids[i];
        if !pair_listed(pairs, lib, &id) {
            r.push(id);
        }
        i += 1;
    }
    proof {
        assert(ids@.take(ids@.len() as int) == ids@);
    }
    r
}

fn pair_listed(pairs: &Vec<(u128, MediaId)>, lib: u128, id: &MediaId) -> (b: bool)
    ensures
        b == pairs@.contains((lib, *id)),
{
    let mut k: usize = 0;
    while k < pairs.len()
        invariant
            k <= pairs@.len(),
            forall|t: int| 0 <= t < k ==> pairs@[t] != (lib, *id),
        decreases pairs@.len() - k,
    {
        let (l, x) = pairs[k];
        if l == lib && x == *id {
            assert(pairs@[k as int] == (lib, *id));
            return true;
        }
        k += 1;
    }
    false
}


/// Whether an upsert of `s` is deferred (an episode of a series not yet
/// known, in batch mode).
pub open spec fn upsert_deferred<T>(m: StoreModel<T>, s: MediaSummary) -> bool {
    let s2l = if s.id is Series { m.series_to_library.insert(uuid_of(s.id), s.library_id) } else { m.series_to_library };
    m.batch_mode && s.id is Episode && !s2l.contains_key(s.series_id)
}

/// Whether an upsert of `s` is refused (it would replace details with an endpoint).
pub open spec fn upsert_refused<T>(m: StoreModel<T>, s: MediaSummary) -> bool {
    let i = index_of(m.media, s.id);
    i >= 0 && keeps_details(m.media[i].0, s)
}

proof fn lemma_lookup_after_write<T>(m: Seq<(MediaSummary, T)>, s: MediaSummary, p: T, other: MediaId)
    requires
        unique_entries(m),
    ensures
        ({
            let i = index_of(m, s.id);
            let w = if i >= 0 { m.update(i, (s, p)) } else { m.push((s, p)) };
            &&& unique_entries(w)
            &&& lookup(w, s.id) == Some((s, p))
            &&& other != s.id ==> lookup(w, other) == lookup(m, other)
        }),
{
    lemma_index_of(m, s.id);
    lemma_index_of(m, other);
    let i = index_of(m, s.id);
    let w = if i >= 0 { m.update(i, (s, p)) } else { m.push((s, p)) };
    assert(unique_entries(w)) by {
        assert forall|a: int, b: int| 0 <= a < b < w.len() implies (#[trigger] w[a]).0.id != (#[trigger] w[b]).0.id by {
            if i >= 0 {
                if a != i && b != i {
                    assert(w[a] == m[a] && w[b] == m[b]);
                } else if a == i {
                    assert(w[b] == m[b]);
                } else {
                    assert(w[a] == m[a]);
                }
            } else {
                if b == m.len() {
                    assert(w[a] == m[a]);
                } else {
                    assert(w[a] == m[a] && w[b] == m[b]);
                }
            }
        }
    }
    let at = if i >= 0 { i } else { m.len() as int };
    assert(w[at] == (s, p));
    lemma_index_of_unique(w, at);
    if other != s.id {
        let j = index_of(m, other);
        lemma_index_of(w, other);
        if j >= 0 {
            assert(j != at);
            assert(w[j] == m[j]);
            lemma_index_of_unique(w, j);
        } else {
            assert forall|t: int| 0 <= t < w.len() implies (#[trigger] w[t]).0.id != other by {
                if t != at {
                    assert(w[t] == m[t]);
                }
            }
            if index_of(w, other) >= 0 {
                assert(w[index_of(w, other)].0.id == other);
            }
        }
    }
}

/// Reading back an item right after upserting it gives what was written,
/// unless the upsert was deferred or refused; other items read as before.
pub proof fn lemma_upsert_then_lookup<T>(m: StoreModel<T>, s: MediaSummary, p: T, other: MediaId)
    requires
        unique_entries(m.media),
        !upsert_deferred(m, s),
        !upsert_refused(m, s),
    ensures
        lookup(upsert_model(m, s, p).media, s.id) == Some((s, p)),
        other != s.id ==> lookup(upsert_model(m, s, p).media, other) == lookup(m.media, other),
{
    lemma_lookup_after_write(m.media, s, p, other);
}

/// Whether `id` is stored with full details.
pub open spec fn stored_with_details<T>(s: Seq<(MediaSummary, T)>, id: MediaId) -> bool {
    match lookup(s, id) {
        Some(e) => e.0.has_details,
        None => false,
    }
}

/// The store never replaces a movie's or series' details with a bare
/// endpoint: once an item has details, an upsert leaves it with details.
pub proof fn lemma_details_never_lost<T>(m: StoreModel<T>, s: MediaSummary, p: T)
    requires
        unique_entries(m.media),
        stored_with_details(m.media, s.id),
        s.id is Movie || s.id is Series,
    ensures
        stored_with_details(upsert_model(m, s, p).media, s.id),
{
    lemma_lookup_after_write(m.media, s, p, s.id);
}

/// After removing an item, it is gone, and other items read as before.
pub proof fn lemma_remove_then_lookup<T>(m: StoreModel<T>, id: MediaId, other: MediaId)
    requires
        unique_entries(m.media),
    ensures
        lookup(remove_model(m, id).media, id) is None,
        other != id ==> lookup(remove_model(m, id).media, other) == lookup(m.media, other),
{
    lemma_index_of(m.media, id);
    lemma_index_of(m.media, other);
    let i = index_of(m.media, id);
    if i >= 0 {
        let w = m.media.remove(i);
        lemma_index_of(w, id);
        lemma_index_of(w, other);
        assert forall|t: int| 0 <= t < w.len() implies (#[trigger] w[t]).0.id != id by {
            let ti = if t < i { t } else { t + 1 };
            assert(w[t] == m.media[ti]);
        }
        if index_of(w, id) >= 0 {
            assert(w[index_of(w, id)].0.id == id);
        }
        if other != id {
            assert(unique_entries(w)) by {
                assert forall|a: int, b: int| 0 <= a < b < w.len() implies (#[trigger] w[a]).0.id != (#[trigger] w[b]).0.id by {
                    let ia = if a < i { a } else { a + 1 };
                    let ib = if b < i { b } else { b + 1 };
                    assert(w[a] == m.media[ia] && w[b] == m.media[ib]);
                }
            }
            let j = index_of(m.media, other);
            if j >= 0 {
                let jw = if j < i { j } else { j - 1 };
                assert(j != i);
                assert(w[jw] == m.media[j]);
                lemma_index_of_unique(w, jw);
            } else {
                assert forall|t: int| 0 <= t < w.len() implies (#[trigger] w[t]).0.id != other by {
                    let ti = if t < i { t } else { t + 1 };
                    assert(w[t] == m.media[ti]);
                }
                if index_of(w, other) >= 0 {
                    assert(w[index_of(w, other)].0.id == other);
                }
            }
        }
    }
}

/// Least time between two progress-driven refreshes of the library views,
/// in milliseconds, unless the item's watch status changed.
pub const PROGRESS_REFRESH_MS: u64 = 2000;

/// Whether a watch-progress update refreshes the library views: at once
/// when the item became or stopped being completed or in progress, or
/// reached completion; otherwise when more than `PROGRESS_REFRESH_MS` passed
/// since the last such refresh (or there was none). Returns the decision and
/// the time of the last refresh afterwards.
pub fn progress_refresh(
    was_completed: bool,
    is_completed: bool,
    was_in_progress: bool,
    is_in_progress: bool,
    reached_completion: bool,
    last_refresh_ms: Option<u64>,
    now_ms: u64,
) -> (r: (bool, Option<u64>))
    ensures
        ({
            let bypass = was_completed != is_completed || was_in_progress != is_in_progress || reached_completion;
            let allow = match last_refresh_ms {
                Some(t) => now_ms > t && now_ms - t > PROGRESS_REFRESH_MS,
                None => true,
            };
            &&& r.0 == (bypass || allow)
            &&& r.1 == if r.0 { Some(now_ms) } else { last_refresh_ms }
        }),
{
    let bypass = was_completed != is_completed || was_in_progress != is_in_progress || reached_completion;
    let allow = match last_refresh_ms {
        Some(t) => now_ms > t && now_ms - t > PROGRESS_REFRESH_MS,
        None => true,
    };
    if bypass || allow { (true, Some(now_ms)) } else { (false, last_refresh_ms) }
}

/// Tracks whether views built on the store should refresh, at most once per
/// debounce interval.
#[derive(Debug, Clone, Copy, PartialEq, Eq, Structural)]
pub struct MediaStoreNotifier {
    pub needs_refresh: bool,
    /// When views last refreshed, in milliseconds of a monotonic clock.
    pub last_refresh_ms: u64,
    /// Minimum time between refreshes, in milliseconds.
    pub debounce_ms: u64,
}

impl MediaStoreNotifier {
    /// A notifier with the default 100 ms debounce, created at `now_ms`.
    pub fn new(now_ms: u64) -> (n: MediaStoreNotifier)
        ensures
            n == (MediaStoreNotifier { needs_refresh: false, last_refresh_ms: now_ms, debounce_ms: 100 }),
    {
        Self::with_debounce(100, now_ms)
    }

    /// A notifier with a custom debounce, created at `now_ms`.
    pub fn with_debounce(debounce_ms: u64, now_ms: u64) -> (n: MediaStoreNotifier)
        ensures
            n == (MediaStoreNotifier { needs_refresh: false, last_refresh_ms: now_ms, debounce_ms }),
    {
        MediaStoreNotifier { needs_refresh: false, last_refresh_ms: now_ms, debounce_ms }
    }

    /// Whether views should refresh now: a refresh is pending and the
    /// debounce interval has passed since the last one; if so the pending
    /// flag clears and the refresh time becomes `now_ms`.
    pub fn should_refresh(&mut self, now_ms: u64) -> (b: bool)
        ensures
            b == (old(self).needs_refresh && now_ms.saturating_sub(old(self).last_refresh_ms) >= old(self).debounce_ms),
            b ==> *final(self) == (MediaStoreNotifier { needs_refresh: false, last_refresh_ms: now_ms, ..*old(self) }),
            !b ==> *final(self) == *old(self),
    {
        if !self.needs_refresh {
            return false;
        }
        if now_ms.saturating_sub(self.last_refresh_ms) < self.debounce_ms {
            return false;
        }
        self.needs_refresh = false;
        self.last_refresh_ms = now_ms;
        true
    }

    /// Mark views as needing a refresh.
    pub fn mark_needs_refresh(&mut self)
        ensures
            *final(self) == (MediaStoreNotifier { needs_refresh: true, ..*old(self) }),
    {
        self.needs_refresh = true;
    }

    /// A media item changed: views need a refresh.
    pub fn on_media_changed(&mut self, event: MediaChangeEvent)
        ensures
            *final(self) == (MediaStoreNotifier { needs_refresh: true, ..*old(self) }),
    {
        self.needs_refresh = true;
    }

    /// A batch completed: views need a refresh.
    pub fn on_batch_complete(&mut self)
        ensures
            *final(self) == (MediaStoreNotifier { needs_refresh: true, ..*old(self) }),
    {
        self.needs_refresh = true;
    }
}


/// The store after a batch load of `items`: flagged as an initial load while
/// it runs (when `initial`), all items upserted in one batch.
pub open spec fn process_items_model<T>(m: StoreModel<T>, items: Seq<(MediaSummary, T)>, initial: bool) -> StoreModel<T> {
    let m1 = if initial { StoreModel { is_initial_load: true, ..m } } else { m };
    let m2 = end_batch_model(upsert_all(begin_batch_model(m1), items));
    if initial { StoreModel { is_initial_load: false, ..m2 } } else { m2 }
}

/// Load `items` into the store in one batch (see `process_items_model`).
/// The chunk size of `config` only paces the work; it does not change the result.
pub fn process_items<T>(store: &mut MediaStore<T>, items: Vec<(MediaSummary, T)>, config: &BatchConfig)
    requires
        old(store).wf(),
        room_for(old(store).model(), 3 * items@.len() + 1),
    ensures
        final(store).wf(),
        final(store).model() == process_items_model(old(store).model(), items@, config.is_initial_load),
{
    let ghost m = store.model();
    let ghost all = items@;
    if config.is_initial_load {
        store.set_initial_load(true);
    }
    store.begin_batch();
    let ghost m2 = store.model();
    let mut ids: Vec<MediaId> = Vec::new();
    store.upsert_each(items, &mut ids);
    proof {
        lemma_upsert_all_growth(m2, all);
    }
    store.end_batch();
    if config.is_initial_load {
        store.set_initial_load(false);
    }
}

/// Apply fetched metadata: upsert each item in turn, outside batch mode.
pub fn process_metadata_batch<T>(store: &mut MediaStore<T>, items: Vec<(MediaSummary, T)>)
    requires
        old(store).wf(),
        room_for(old(store).model(), items@.len() + 1),
    ensures
        final(store).wf(),
        final(store).model() == upsert_all(old(store).model(), items@),
{
    let mut ids: Vec<MediaId> = Vec::new();
    store.upsert_each(items, &mut ids);
}

/// All libraries' items, concatenated in order.
pub open spec fn concat_libraries<T>(libs: Seq<(u128, Vec<(MediaSummary, T)>)>) -> Seq<(MediaSummary, T)>
    decreases libs.len(),
{
    if libs.len() == 0 {
        Seq::empty()
    } else {
        concat_libraries(libs.drop_last()) + libs.last().1@
    }
}

/// The store after the initial load of all libraries: flagged as an initial
/// load, one batch in which all items are bulk-upserted (series first).
pub open spec fn initial_load_model<T>(m: StoreModel<T>, items: Seq<(MediaSummary, T)>) -> StoreModel<T> {
    let m1 = begin_batch_model(StoreModel { is_initial_load: true, ..m });
    let m2 = upsert_all(upsert_all(m1, series_items(items)), other_items(items));
    StoreModel { is_initial_load: false, ..end_batch_model(m2) }
}

/// Load every library's items at start-up (see `initial_load_model`).
pub fn process_initial_load<T>(store: &mut MediaStore<T>, libraries: Vec<(u128, Vec<(MediaSummary, T)>)>)
    requires
        old(store).wf(),
        room_for(old(store).model(), 3 * concat_libraries(libraries@).len() + 1),
    ensures
        final(store).wf(),
        final(store).model() == initial_load_model(old(store).model(), concat_libraries(libraries@)),
{
    let ghost libs = libraries@;
    let ghost total = concat_libraries(libs);
    let mut all: Vec<(MediaSummary, T)> = Vec::new();
    let n = libraries.len();
    let mut rest = libraries;
    let mut k: usize = 0;
    proof {
        lemma_concat_libraries_prefix_len(libs, 0);
    }
    while rest.len() > 0
        invariant
            k <= libs.len(),
            libs.len() == n,
            rest@ == libs.skip(k as int),
            all@ == concat_libraries(libs.take(k as int)),
            total == concat_libraries(libs),
            total.len() < usize::MAX,
        decreases rest@.len(),
    {
        proof {
            assert(libs.skip(k as int)[0] == libs[k as int]);
            assert(libs.skip(k as int).remove(0) == libs.skip(k + 1));
            assert(libs.take(k + 1).drop_last() == libs.take(k as int));
            assert(libs.take(k + 1).last() == libs[k as int]);
            lemma_concat_libraries_prefix_len(libs, k + 1);
        }
        let (_library_id, mut items) = rest.remove(0);
        all.append(&mut items);
        k = k + 1;
    }
    proof {
        assert(libs.take(k as int) == libs);
    }
    store.set_initial_load(true);
    store.begin_batch();
    let ghost m1 = store.model();
    let _ids = store.bulk_upsert(all);
    proof {
        lemma_split_len(total);
        lemma_upsert_all_growth(m1, series_items(total));
        lemma_upsert_all_growth(upsert_all(m1, series_items(total)), other_items(total));
    }
    store.end_batch();
    store.set_initial_load(false);
}

proof fn lemma_concat_libraries_prefix_len<T>(libs: Seq<(u128, Vec<(MediaSummary, T)>)>, k: int)
    requires
        0 <= k <= libs.len(),
    ensures
        concat_libraries(libs.take(k)).len() <= concat_libraries(libs).len(),
    decreases libs.len() - k,
{
    if k < libs.len() {
        lemma_concat_libraries_prefix_len(libs, k + 1);
        assert(libs.take(k + 1).drop_last() == libs.take(k));
    } else {
        assert(libs.take(k) == libs);
    }
}


/// Whether any movie or series is listed.
pub fn has_any_media<T>(store: &MediaStore<T>) -> (b: bool)
    ensures
        b == (listed(store.model(), store.model().sorted_movies, MediaType::Movie, None).len() > 0
            || listed(store.model(), store.model().sorted_series, MediaType::Series, None).len() > 0),
{
    store.get_movies(None).len() > 0 || store.get_series(None).len() > 0
}

/// Whether library `lib` lists any movie or series.
pub fn has_media_in_library<T>(store: &MediaStore<T>, lib: u128) -> (b: bool)
    ensures
        b == (listed(store.model(), store.model().sorted_movies, MediaType::Movie, Some(lib)).len() > 0
            || listed(store.model(), store.model().sorted_series, MediaType::Series, Some(lib)).len() > 0),
{
    store.get_movies(Some(lib)).len() > 0 || store.get_series(Some(lib)).len() > 0
}

/// How many movies and series library `lib` lists.
pub fn get_library_media_count<T>(store: &MediaStore<T>, lib: u128) -> (r: (usize, usize))
    ensures
        r.0 == listed(store.model(), store.model().sorted_movies, MediaType::Movie, Some(lib)).len(),
        r.1 == listed(store.model(), store.model().sorted_series, MediaType::Series, Some(lib)).len(),
{
    (store.get_movies(Some(lib)).len(), store.get_series(Some(lib)).len())
}

/// Whether an item is stored under `id`.
pub fn media_exists<T>(store: &MediaStore<T>, id: &MediaId) -> (b: bool)
    ensures
        b == (lookup(store.model().media, *id) is Some),
{
    store.get(id).is_some()
}

/// Outside batch mode, removing an item right after upserting it under a new
/// id gives back the stored items as they were, and the movie and series
/// lists hold the same ids as before. The list part needs the store's list
/// invariant (`lists_consistent`), which every reachable store has.
pub proof fn lemma_remove_after_upsert<T>(m: StoreModel<T>, s: MediaSummary, p: T)
    requires
        !m.batch_mode,
        unique_entries(m.media),
        index_of(m.media, s.id) < 0,
    ensures
        remove_model(upsert_model(m, s, p), s.id).media == m.media,
        lists_consistent(m) ==> lists_consistent(remove_model(upsert_model(m, s, p), s.id)),
        lists_consistent(m) ==> forall|x: MediaId| #[trigger] remove_model(upsert_model(m, s, p), s.id).sorted_movies.contains(x)
            <==> m.sorted_movies.contains(x),
        lists_consistent(m) ==> forall|x: MediaId| #[trigger] remove_model(upsert_model(m, s, p), s.id).sorted_series.contains(x)
            <==> m.sorted_series.contains(x),
{
    let u = upsert_model(m, s, p);
    lemma_index_of(m.media, s.id);
    assert(u.media == m.media.push((s, p)));
    assert(index_of(u.media, s.id) == m.media.len());
    assert(u.media.remove(m.media.len() as int) =~= m.media);
    assert(unique_entries(u.media)) by {
        assert forall|a: int, b: int| 0 <= a < b < u.media.len() implies (#[trigger] u.media[a]).0.id != (#[trigger] u.media[b]).0.id by {
            if b == m.media.len() {
                assert(u.media[a] == m.media[a]);
            } else {
                assert(u.media[a] == m.media[a] && u.media[b] == m.media[b]);
            }
        }
    }
    if lists_match(m) {
        lemma_upsert_keeps_lists(m, s, p);
        lemma_remove_keeps_lists(u, s.id);
        let r = remove_model(u, s.id);
        assert forall|x: MediaId| #[trigger] r.sorted_movies.contains(x) <==> m.sorted_movies.contains(x) by {
            assert(r.sorted_movies.contains(x) <==> (x is Movie && index_of(r.media, x) >= 0));
            assert(m.sorted_movies.contains(x) <==> (x is Movie && index_of(m.media, x) >= 0));
        }
        assert forall|x: MediaId| #[trigger] r.sorted_series.contains(x) <==> m.sorted_series.contains(x) by {
            assert(r.sorted_series.contains(x) <==> (x is Series && index_of(r.media, x) >= 0));
            assert(m.sorted_series.contains(x) <==> (x is Series && index_of(m.media, x) >= 0));
        }
    }
}

/// Sort keys order items by their criterion: ascending keys follow the
/// file size (or the height, unknown counting as 0) upward, and descending
/// keys follow it downward, each descending key being the ascending one
/// reflected from the top of the range.
pub proof fn lemma_sort_key_order(f: SortFields, g: SortFields)
    ensures
        ({
            let hf: int = match f.height { Some(h) => h as int, None => 0 };
            let hg: int = match g.height { Some(h) => h as int, None => 0 };
            &&& (sort_key_for(KeyedSort::FileSize, false, f) < sort_key_for(KeyedSort::FileSize, false, g))
                == (f.file_size < g.file_size)
            &&& (sort_key_for(KeyedSort::FileSize, true, f) < sort_key_for(KeyedSort::FileSize, true, g))
                == (g.file_size < f.file_size)
            &&& (sort_key_for(KeyedSort::Resolution, false, f) < sort_key_for(KeyedSort::Resolution, false, g))
                == (hf < hg)
            &&& (sort_key_for(KeyedSort::Resolution, true, f) < sort_key_for(KeyedSort::Resolution, true, g))
                == (hg < hf)
            &&& (sort_key_for(KeyedSort::Resolution, false, f) == sort_key_for(KeyedSort::Resolution, false, g))
                == (hf == hg)
            &&& (sort_key_for(KeyedSort::FileSize, false, f) == sort_key_for(KeyedSort::FileSize, false, g))
                == (f.file_size == g.file_size)
        }),
        forall|by: KeyedSort| #[trigger] sort_key_for(by, true, f) == u64::MAX - sort_key_for(by, false, f),
{
}

} // verus!
