//! The unified image cache: per-request load state, the pending request
//! queue, the set of in-flight loads, ready blob tokens, a RAM budget for
//! loaded images enforced by least-recently-accessed eviction, retry
//! throttling, and adaptive load concurrency.
//!
//! Times are milliseconds on a monotonic clock supplied by the caller.
//! Loaded image handles are held by the caller and named here by an id.
use vstd::prelude::*;
use std::collections::VecDeque;
use dashmap::DashMap;
use priority_queue::PriorityQueue;
use crate::image_types::{
    ImageRequest, Priority, RequestKey, request_key, request_of_key, valid_key,
    priority_weight, priority_of_weight, request_from_key,
};
use crate::collections::{
    EntryMap, TokenMap, LoadingMap, RequestQueue, entry_map_contents, token_map_contents,
    loading_map_contents, queue_contents, entry_map_new, entry_map_get, entry_map_insert,
    entry_map_remove, entry_map_keys, entry_map_shrink, token_map_new, token_map_get,
    token_map_insert, token_map_remove, loading_map_new, loading_map_get, loading_map_contains,
    loading_map_insert, loading_map_remove, loading_map_len, loading_map_keys, queue_new,
    queue_push, queue_pop, queue_peek, queue_get_priority, queue_change_priority, queue_remove,
    queue_len, queue_items,
};
use crate::sorting::{sort_u64, sorted_u64_seq, sort_by_first, first_leq};
use crate::text::{str_contains, seq_contains};

verus! {

/// Hint for how the UI should reveal an image the first time it is shown.
#[derive(Debug, Clone, Copy, PartialEq, Eq, Structural)]
pub enum FirstDisplayHint {
    FlipOnce,
    FastThenSlow,
}

/// Load state of one cached request. `Loaded` carries the id of the image handle.
#[derive(Debug, Clone)]
pub enum LoadState {
    Loading,
    Loaded(u64),
    Failed(String),
    Pending,
}

/// Cache bookkeeping for one request.
#[derive(Debug, Clone)]
pub struct ImageEntry {
    pub state: LoadState,
    pub last_accessed: u64,
    pub loaded_at: Option<u64>,
    pub requested_at: Option<u64>,
    pub loading_started_at: Option<u64>,
    pub first_displayed_at: Option<u64>,
    pub retry_count: u8,
    pub last_failure: Option<u64>,
    pub first_display_hint: Option<FirstDisplayHint>,
    pub estimated_bytes: u64,
}

/// Limits the cache is configured with.
#[derive(Debug, Clone, Copy, PartialEq, Eq, Structural)]
pub struct ImageCacheLimits {
    /// Initial hard cap for the bytes of loaded images.
    pub ram_max_bytes: u64,
    /// Failures (other than "not found") after which a request is no longer retried.
    pub max_retry_attempts: u8,
    /// Minimum delay between retries of a failed or pending request.
    pub retry_throttle_ms: u64,
}

/// Number of latency samples kept.
pub const TELEMETRY_WINDOW: usize = 128;
/// Number of samples needed before a median is reported.
pub const MIN_MEDIAN_SAMPLES: usize = 8;
/// Lower bound for adaptive concurrency.
pub const MIN_CONCURRENT: usize = 8;
/// Upper bound for adaptive concurrency.
pub const MAX_CONCURRENT: usize = 128;
/// Median latency below which concurrency grows.
pub const TARGET_LOW_MS: u64 = 40;
/// Median latency above which concurrency shrinks.
pub const TARGET_HIGH_MS: u64 = 200;
/// Queue depth above which concurrency is halved.
pub const QUEUE_BACKUP_DEPTH: usize = 100;
/// Loads that took this long or more are not counted as load latency.
pub const LOAD_SAMPLE_LIMIT_MS: u64 = 1000;
/// A loading entry whose load started this long ago is stale.
pub const STALE_LOADING_MS: u64 = 30000;

/// Rolling latency windows and depth high-water marks.
#[derive(Debug)]
pub struct Telemetry {
    load_ms: VecDeque<u64>,
    display_ms: VecDeque<u64>,
    max_queue_depth: usize,
    max_in_flight: usize,
}

/// What the telemetry holds.
pub struct TelemetryModel {
    pub load_ms: Seq<u64>,
    pub display_ms: Seq<u64>,
    pub max_queue_depth: usize,
    pub max_in_flight: usize,
}

/// `s` with `v` appended, dropping the oldest sample beyond the window.
pub open spec fn window_push(s: Seq<u64>, v: u64) -> Seq<u64> {
    if s.len() + 1 > TELEMETRY_WINDOW {
        s.push(v).drop_first()
    } else {
        s.push(v)
    }
}

/// The median of a sample window: the element of rank `len / 2` in ascending order.
pub open spec fn median_of(s: Seq<u64>) -> u64 {
    sorted_u64_seq(s)[(s.len() / 2) as int]
}

impl View for Telemetry {
    type V = TelemetryModel;

    closed spec fn view(&self) -> TelemetryModel {
        TelemetryModel {
            load_ms: self.load_ms@,
            display_ms: self.display_ms@,
            max_queue_depth: self.max_queue_depth,
            max_in_flight: self.max_in_flight,
        }
    }
}

impl Telemetry {
    pub closed spec fn wf(&self) -> bool {
        self.load_ms@.len() <= TELEMETRY_WINDOW && self.display_ms@.len() <= TELEMETRY_WINDOW
    }

    pub fn new() -> (t: Telemetry)
        ensures
            t.wf(),
            t@.load_ms == Seq::<u64>::empty(),
            t@.display_ms == Seq::<u64>::empty(),
            t@.max_queue_depth == 0,
            t@.max_in_flight == 0,
    {
        Telemetry { load_ms: VecDeque::new(), display_ms: VecDeque::new(), max_queue_depth: 0, max_in_flight: 0 }
    }

    /// Append a sample to a window, dropping the oldest beyond the window size.
    pub fn push(data: &mut VecDeque<u64>, value: u64)
        requires
            old(data)@.len() <= TELEMETRY_WINDOW,
        ensures
            final(data)@ == window_push(old(data)@, value),
            final(data)@.len() <= TELEMETRY_WINDOW,
    {
        data.push_back(value);
        if data.len() > TELEMETRY_WINDOW {
            data.pop_front();
        }
    }

    pub fn record_load_duration(&mut self, ms: u64)
        requires
            old(self).wf(),
        ensures
            final(self).wf(),
            final(self)@ == (TelemetryModel { load_ms: window_push(old(self)@.load_ms, ms), ..old(self)@ }),
    {
        Self::push(&mut self.load_ms, ms);
    }

    pub fn record_display_latency(&mut self, ms: u64)
        requires
            old(self).wf(),
        ensures
            final(self).wf(),
            final(self)@ == (TelemetryModel { display_ms: window_push(old(self)@.display_ms, ms), ..old(self)@ }),
    {
        Self::push(&mut self.display_ms, ms);
    }

    /// Raise the high-water marks; returns whether `queue_depth` is a new queue-depth high.
    pub fn record_state(&mut self, in_flight: usize, queue_depth: usize) -> (new_high: bool)
        requires
            old(self).wf(),
        ensures
            final(self).wf(),
            new_high == (queue_depth > old(self)@.max_queue_depth),
            final(self)@ == (TelemetryModel {
                max_in_flight: if in_flight > old(self)@.max_in_flight { in_flight } else { old(self)@.max_in_flight },
                max_queue_depth: if queue_depth > old(self)@.max_queue_depth { queue_depth } else { old(self)@.max_queue_depth },
                ..old(self)@
            }),
    {
        if in_flight > self.max_in_flight {
            self.max_in_flight = in_flight;
        }
        let previous = self.max_queue_depth;
        if queue_depth > previous {
            self.max_queue_depth = queue_depth;
        }
        queue_depth > previous
    }

    /// The element of rank `len / 2` of an ascending sequence (0 when empty):
    /// the 50th percentile with the rank rounded half away from zero.
    pub fn median_of_sorted(sorted: &Vec<u64>) -> (m: u64)
        ensures
            m == (if sorted@.len() == 0 { 0 } else { sorted@[(sorted@.len() / 2) as int] }),
    {
        if sorted.len() == 0 {
            return 0;
        }
        sorted[sorted.len() / 2]
    }

    /// Median load latency, or `None` with fewer than eight samples.
    pub fn median_load_ms(&self) -> (r: Option<u64>)
        ensures
            r == (if self@.load_ms.len() < MIN_MEDIAN_SAMPLES { None } else { Some(median_of(self@.load_ms)) }),
    {
        if self.load_ms.len() < MIN_MEDIAN_SAMPLES {
            return None;
        }
        let mut data: Vec<u64> = Vec::new();
        let mut i: usize = 0;
        while i < self.load_ms.len()
            invariant
                i <= self.load_ms@.len(),
                data@ == self.load_ms@.take(i as int),
            decreases self.load_ms@.len() - i,
        {
            data.push(self.load_ms[i]);
            i += 1;
        }
        assert(data@ == self.load_ms@.take(self.load_ms@.len() as int));
        assert(data@ == self.load_ms@);
        let sorted = sort_u64(&data);
        proof {
            broadcast use vstd::seq_lib::group_to_multiset_ensures;
            self.load_ms@.lemma_sort_by_ensures(crate::sorting::u64_leq());
            assert(sorted@.to_multiset().len() == self.load_ms@.to_multiset().len());
            assert(sorted@.len() == self.load_ms@.len());
        }
        Some(Self::median_of_sorted(&sorted))
    }
}


/// The image cache. All maps are keyed by `request_key`.
pub struct UnifiedImageService {
    cache: EntryMap,
    ready_tokens: TokenMap,
    queue: RequestQueue,
    loading: LoadingMap,
    max_concurrent: usize,
    telemetry: Telemetry,
    retry_slot_counter: usize,
    last_known_ram_usage: u64,
    ram_max_bytes: u64,
    limits: ImageCacheLimits,
}

/// What the image cache holds.
pub struct CacheModel {
    pub entries: Map<RequestKey, ImageEntry>,
    pub tokens: Map<RequestKey, String>,
    pub loading: Map<RequestKey, u64>,
    pub queue: Map<RequestKey, u8>,
    pub max_concurrent: usize,
    pub retry_slot_counter: usize,
    pub resident: u64,
    pub ram_max: u64,
    pub limits: ImageCacheLimits,
    pub telemetry: TelemetryModel,
}

impl View for UnifiedImageService {
    type V = CacheModel;

    closed spec fn view(&self) -> CacheModel {
        CacheModel {
            entries: entry_map_contents(self.cache),
            tokens: token_map_contents(self.ready_tokens),
            loading: loading_map_contents(self.loading),
            queue: queue_contents(self.queue),
            max_concurrent: self.max_concurrent,
            retry_slot_counter: self.retry_slot_counter,
            resident: self.last_known_ram_usage,
            ram_max: self.ram_max_bytes,
            limits: self.limits,
            telemetry: self.telemetry@,
        }
    }
}

/// Bytes released when `e` is dropped from the cache: its estimate if it holds a
/// loaded image, otherwise nothing.
pub open spec fn released_bytes(e: ImageEntry) -> u64 {
    if e.state is Loaded && e.estimated_bytes > 0 { e.estimated_bytes } else { 0 }
}

pub open spec fn wrap_sub(x: u64, y: u64) -> u64 {
    vstd::wrapping::u64_specs::wrapping_sub(x, y)
}

pub open spec fn wrap_add(x: u64, y: u64) -> u64 {
    vstd::wrapping::u64_specs::wrapping_add(x, y)
}

pub open spec fn sat_sub(x: u64, y: u64) -> u64 {
    if x >= y { (x - y) as u64 } else { 0 }
}

/// Resident estimate after an entry's estimate moves from `prev` to `next`.
pub open spec fn adjusted(r: u64, prev: u64, next: u64) -> u64 {
    if next > prev { wrap_add(r, (next - prev) as u64) } else { wrap_sub(r, (prev - next) as u64) }
}

/// `m` with the entry under `k` replaced by `e`.
pub open spec fn with_entry(m: CacheModel, k: RequestKey, e: ImageEntry) -> CacheModel {
    CacheModel { entries: m.entries.insert(k, e), ..m }
}

/// What `take_loaded_entry` returns for key `k`: for a loaded image its
/// handle, its load time and its first-display hint (a single flip when
/// none was set and it was never displayed); otherwise nothing.
pub open spec fn taken_result(m: CacheModel, k: RequestKey) -> Option<(u64, Option<u64>, Option<FirstDisplayHint>)> {
    match m.entries.get(k) {
        Some(e) => match e.state {
            LoadState::Loaded(h) => Some((h, e.loaded_at, if e.first_display_hint is Some {
                e.first_display_hint
            } else if e.first_displayed_at is None {
                Some(FirstDisplayHint::FlipOnce)
            } else {
                None
            })),
            _ => None,
        },
        None => None,
    }
}

/// The cache after `take_loaded_entry` of key `k` at `now`: a loaded entry
/// is touched, its hint consumed and, on its first display, the display
/// time recorded (with the display latency, when the load time is known).
pub open spec fn taken_model(m: CacheModel, k: RequestKey, now: u64) -> CacheModel {
    match m.entries.get(k) {
        Some(e) => match e.state {
            LoadState::Loaded(h) => {
                let first = e.first_displayed_at is None;
                let e2 = ImageEntry {
                    last_accessed: now,
                    first_displayed_at: if first { Some(now) } else { e.first_displayed_at },
                    first_display_hint: None,
                    ..e
                };
                let m2 = with_entry(m, k, e2);
                if first && e.loaded_at is Some {
                    CacheModel {
                        telemetry: TelemetryModel {
                            display_ms: window_push(m.telemetry.display_ms, sat_sub(now, e.loaded_at->0)),
                            ..m.telemetry
                        },
                        ..m2
                    }
                } else {
                    m2
                }
            },
            _ => m,
        },
        None => m,
    }
}

/// A loaded image's first-display hint is given once: taking the entry a
/// second time gives the same handle and load time with no hint.
pub proof fn lemma_hint_given_once(m: CacheModel, k: RequestKey, t1: u64, t2: u64)
    requires
        m.entries.contains_key(k),
        m.entries[k].state is Loaded,
    ensures
        taken_result(m, k) is Some,
        taken_result(taken_model(m, k, t1), k) == Some((
            m.entries[k].state->Loaded_0,
            m.entries[k].loaded_at,
            None::<FirstDisplayHint>,
        )),
{
}

/// The entry `mark_loading` writes, given the entry it replaces.
pub open spec fn loading_entry(prev: Option<ImageEntry>, now: u64) -> ImageEntry {
    match prev {
        Some(e) => ImageEntry {
            state: LoadState::Loading,
            last_accessed: now,
            loaded_at: None,
            requested_at: if e.requested_at is Some { e.requested_at } else { Some(now) },
            loading_started_at: Some(now),
            first_displayed_at: e.first_displayed_at,
            retry_count: e.retry_count,
            last_failure: e.last_failure,
            first_display_hint: e.first_display_hint,
            estimated_bytes: e.estimated_bytes,
        },
        None => ImageEntry {
            state: LoadState::Loading,
            last_accessed: now,
            loaded_at: None,
            requested_at: Some(now),
            loading_started_at: Some(now),
            first_displayed_at: None,
            retry_count: 0,
            last_failure: None,
            first_display_hint: None,
            estimated_bytes: 0,
        },
    }
}

/// A fresh entry in state `state` first seen at `now` (failures record `now`).
pub open spec fn fresh_entry(state: LoadState, now: u64, retry_count: u8) -> ImageEntry {
    ImageEntry {
        state,
        last_accessed: now,
        loaded_at: None,
        requested_at: Some(now),
        loading_started_at: Some(now),
        first_displayed_at: None,
        retry_count,
        last_failure: Some(now),
        first_display_hint: None,
        estimated_bytes: 0,
    }
}

/// The entry `mark_failed` writes over an existing entry `e`.
pub open spec fn failed_entry(e: ImageEntry, error: String, now: u64) -> ImageEntry {
    ImageEntry {
        state: LoadState::Failed(error),
        retry_count: if e.retry_count < 255 { (e.retry_count + 1) as u8 } else { 255 },
        last_failure: Some(now),
        estimated_bytes: if e.state is Loaded && e.estimated_bytes > 0 { 0 } else { e.estimated_bytes },
        ..e
    }
}

/// The entry `mark_pending` writes over an existing entry `e`.
pub open spec fn pending_entry(e: ImageEntry, now: u64) -> ImageEntry {
    ImageEntry {
        state: LoadState::Pending,
        last_accessed: now,
        last_failure: Some(now),
        estimated_bytes: if e.state is Loaded && e.estimated_bytes > 0 { 0 } else { e.estimated_bytes },
        ..e
    }
}


/// Whether an entry failed with a "not found" error.
pub open spec fn is_failed_404(e: ImageEntry) -> bool {
    match e.state {
        LoadState::Failed(err) => seq_contains(err@, "404"@),
        _ => false,
    }
}

/// Back-off before retrying a "not found" failure after `rc` earlier failures:
/// 750 ms doubled per failure (at most four doublings), capped at 8 s.
pub open spec fn backoff_404_ms(rc: u8) -> u64 {
    if rc == 0 { 750 } else if rc == 1 { 1500 } else if rc == 2 { 3000 } else if rc == 3 { 6000 } else { 8000 }
}

/// Minimum delay since the last failure before `e` may be retried.
pub open spec fn retry_throttle(e: ImageEntry, limits: ImageCacheLimits) -> u64 {
    if is_failed_404(e) { backoff_404_ms(e.retry_count) } else { limits.retry_throttle_ms }
}

/// Whether a request for `e` is answered from the cache without queueing:
/// it is loaded, it failed too often, or its retry is still throttled.
pub open spec fn request_blocked(e: ImageEntry, now: u64, limits: ImageCacheLimits) -> bool {
    ||| e.state is Loaded
    ||| (e.state is Failed && !is_failed_404(e) && e.retry_count >= limits.max_retry_attempts)
    ||| ((e.state is Failed || e.state is Pending) && e.last_failure is Some
        && sat_sub(now, e.last_failure->0) < retry_throttle(e, limits))
}

/// `e` after a request at `now`: touched, and stamped with its first request
/// time when the request goes through.
pub open spec fn requested_entry(e: ImageEntry, now: u64, limits: ImageCacheLimits) -> ImageEntry {
    ImageEntry {
        last_accessed: now,
        requested_at: if request_blocked(e, now, limits) || e.requested_at is Some {
            e.requested_at
        } else {
            Some(now)
        },
        ..e
    }
}

/// Whether a request for `k` at `now` reaches the queue.
pub open spec fn request_proceeds(m: CacheModel, k: RequestKey, now: u64) -> bool {
    !(m.entries.contains_key(k) && request_blocked(m.entries[k], now, m.limits)) && !m.loading.contains_key(k)
}

/// The state after a request for `r` at `now`.
pub open spec fn requested_model(m: CacheModel, r: ImageRequest, now: u64) -> CacheModel {
    let k = request_key(r);
    let w = priority_weight(r.priority);
    CacheModel {
        entries: if m.entries.contains_key(k) {
            m.entries.insert(k, requested_entry(m.entries[k], now, m.limits))
        } else {
            m.entries
        },
        queue: if request_proceeds(m, k, now) && (!m.queue.contains_key(k) || w > m.queue[k]) {
            m.queue.insert(k, w)
        } else {
            m.queue
        },
        ..m
    }
}

/// The state right after a load completes, before the RAM budget is enforced.
pub open spec fn loaded_model(m: CacheModel, k: RequestKey, handle: u64, bytes: u64, now: u64) -> CacheModel {
    let prev = m.entries.get(k);
    let entry = ImageEntry {
        state: LoadState::Loaded(handle),
        last_accessed: now,
        loaded_at: Some(now),
        requested_at: match prev { Some(e) => e.requested_at, None => None },
        loading_started_at: match prev { Some(e) => e.loading_started_at, None => None },
        first_displayed_at: match prev { Some(e) => e.first_displayed_at, None => None },
        retry_count: 0,
        last_failure: None,
        first_display_hint: match prev { Some(e) => e.first_display_hint, None => None },
        estimated_bytes: bytes,
    };
    let prev_bytes: u64 = match prev { Some(e) => e.estimated_bytes, None => 0 };
    let started = match prev { Some(e) => e.loading_started_at, None => None };
    CacheModel {
        tokens: m.tokens.remove(k),
        loading: m.loading.remove(k),
        entries: m.entries.insert(k, entry),
        resident: adjusted(m.resident, prev_bytes, bytes),
        telemetry: if started is Some && sat_sub(now, started->0) < LOAD_SAMPLE_LIMIT_MS {
            TelemetryModel { load_ms: window_push(m.telemetry.load_ms, sat_sub(now, started->0)), ..m.telemetry }
        } else {
            m.telemetry
        },
        ..m
    }
}

/// The keys of a sequence of (time, key) pairs.
pub open spec fn pair_keys(s: Seq<(u64, RequestKey)>) -> Seq<RequestKey> {
    s.map_values(|c: (u64, RequestKey)| c.1)
}

/// The keys of a sequence of (key, weight) pairs.
pub open spec fn pair_keys_u8(s: Seq<(RequestKey, u8)>) -> Seq<RequestKey> {
    s.map_values(|e: (RequestKey, u8)| e.0)
}

/// Bytes released by evicting `k` from `entries`.
pub open spec fn eviction_bytes(entries: Map<RequestKey, ImageEntry>, k: RequestKey) -> u64 {
    if entries.contains_key(k) { released_bytes(entries[k]) } else { 0 }
}

/// Resident estimate after evicting `ev` in order (wrapping, as the counter does).
pub open spec fn resident_after(r: u64, entries: Map<RequestKey, ImageEntry>, ev: Seq<RequestKey>) -> u64
    decreases ev.len(),
{
    if ev.len() == 0 {
        r
    } else {
        let prev = resident_after(r, entries, ev.drop_last());
        let b = eviction_bytes(entries, ev.last());
        if b > 0 { wrap_sub(prev, b) } else { prev }
    }
}

/// The eviction loop's running estimate after evicting `ev` (saturating).
pub open spec fn estimate_after(r: u64, entries: Map<RequestKey, ImageEntry>, ev: Seq<RequestKey>) -> u64
    decreases ev.len(),
{
    if ev.len() == 0 {
        r
    } else {
        sat_sub(estimate_after(r, entries, ev.drop_last()), eviction_bytes(entries, ev.last()))
    }
}

/// The level eviction brings the estimate down to: 90% of the cap.
pub open spec fn ram_target(max: u64) -> u64 {
    (max - max / 10) as u64
}

/// `post` is `pre` after evicting the loaded entries `ev`, least recently
/// accessed first, stopping as soon as the estimate is at or below the target.
pub open spec fn lru_eviction(pre: CacheModel, post: CacheModel, ev: Seq<RequestKey>) -> bool {
    &&& ev.no_duplicates()
    &&& forall|i: int| 0 <= i < ev.len() ==> pre.entries.contains_key(#[trigger] ev[i]) && pre.entries[ev[i]].state is Loaded
    &&& post.entries == pre.entries.remove_keys(ev.to_set())
    &&& forall|i: int, j: int| 0 <= i < j < ev.len() ==>
        pre.entries[#[trigger] ev[i]].last_accessed <= pre.entries[#[trigger] ev[j]].last_accessed
    &&& forall|i: int, k: RequestKey| 0 <= i < ev.len() && #[trigger] post.entries.contains_key(k)
        && post.entries[k].state is Loaded ==> pre.entries[#[trigger] ev[i]].last_accessed <= post.entries[k].last_accessed
    &&& forall|j: int| 0 <= j < ev.len() ==> estimate_after(pre.resident, pre.entries, #[trigger] ev.take(j)) > ram_target(pre.ram_max)
    &&& (estimate_after(pre.resident, pre.entries, ev) <= ram_target(pre.ram_max)
        || forall|k: RequestKey| #[trigger] post.entries.contains_key(k) ==> !(post.entries[k].state is Loaded))
    &&& post.resident == resident_after(pre.resident, pre.entries, ev)
    &&& post == CacheModel { entries: post.entries, resident: post.resident, ..pre }
}

/// `post` is `pre` with the RAM budget enforced: nothing changes while the
/// estimate is within the cap; otherwise loaded images are evicted as by `lru_eviction`.
pub open spec fn budget_enforced(pre: CacheModel, post: CacheModel) -> bool {
    if pre.resident <= pre.ram_max {
        post == pre
    } else {
        exists|ev: Seq<RequestKey>| lru_eviction(pre, post, ev)
    }
}


/// Reading back an image right after its load completes gives the loaded
/// handle, whenever the load leaves the cache within its RAM cap.
pub proof fn lemma_loaded_then_get(m: CacheModel, k: RequestKey, handle: u64, bytes: u64, now: u64, post: CacheModel)
    requires
        budget_enforced(loaded_model(m, k, handle, bytes, now), post),
        loaded_model(m, k, handle, bytes, now).resident <= m.ram_max,
    ensures
        post.entries.contains_key(k),
        post.entries[k].state == LoadState::Loaded(handle),
        post.entries[k].last_accessed == now,
{
}

/// A request never lowers the priority an image is queued at, never queues
/// an image whose load is in flight, and never touches loads in flight.
pub proof fn lemma_request_never_lowers(m: CacheModel, r: ImageRequest, now: u64)
    ensures
        m.queue.contains_key(request_key(r)) ==> requested_model(m, r, now).queue.contains_key(request_key(r))
            && requested_model(m, r, now).queue[request_key(r)] >= m.queue[request_key(r)],
        m.loading.contains_key(request_key(r)) ==> requested_model(m, r, now).queue == m.queue,
        requested_model(m, r, now).loading == m.loading,
        forall|k: RequestKey| k != request_key(r) ==> (#[trigger] requested_model(m, r, now).queue.contains_key(k)) == m.queue.contains_key(k),
{
}

/// Retry count recorded for `k` (zero when the cache has no entry).
pub open spec fn retry_count_of(m: CacheModel, k: RequestKey) -> u8 {
    if m.entries.contains_key(k) { m.entries[k].retry_count } else { 0 }
}

/// A queued request that is not loading: a candidate for the next load.
pub open spec fn is_candidate(m: CacheModel, k: RequestKey) -> bool {
    m.queue.contains_key(k) && !m.loading.contains_key(k)
}

/// Whether `k` is queued at the greatest priority of the queue.
pub open spec fn is_top(m: CacheModel, k: RequestKey) -> bool {
    m.queue.contains_key(k) && forall|j: RequestKey| #[trigger] m.queue.contains_key(j) ==> m.queue[j] <= m.queue[k]
}

/// Whether `r` is a choice `get_next_request` may make in `m`, leaving the
/// scheduling counter at `c`: nothing while the concurrency cap is reached
/// or no queued request is idle; otherwise an idle queued request, with its
/// queued priority. A fresh request (never retried) is taken at the top
/// priority without touching the counter, or else on a slot that is not a
/// retry slot (or when no idle request has failed before); a request that
/// failed before is taken on a retry slot (every fifth), or when no idle
/// request is fresh; either way the counter advances. When every
/// top-priority request is idle and fresh, one of them is taken.
#[verifier::opaque]
pub open spec fn next_choice(m: CacheModel, r: Option<ImageRequest>, c: usize) -> bool {
    &&& match r {
        None => m.loading.dom().len() >= m.max_concurrent || forall|k: RequestKey| !is_candidate(m, k),
        Some(q) => {
            let k = request_key(q);
            &&& m.loading.dom().len() < m.max_concurrent
            &&& is_candidate(m, k)
            &&& q == request_of_key(k, priority_of_weight(m.queue[k]))
            &&& if retry_count_of(m, k) == 0 {
                ||| (c == m.retry_slot_counter
                    && forall|j: RequestKey| #[trigger] m.queue.contains_key(j) ==> m.queue[j] <= m.queue[k])
                ||| (c == wrap_inc(m.retry_slot_counter)
                    && (!retry_slot(m.retry_slot_counter)
                        || forall|j: RequestKey| #[trigger] is_candidate(m, j) ==> retry_count_of(m, j) == 0))
            } else {
                &&& c == wrap_inc(m.retry_slot_counter)
                &&& (retry_slot(m.retry_slot_counter)
                    || forall|j: RequestKey| #[trigger] is_candidate(m, j) ==> retry_count_of(m, j) != 0)
            }
        },
    }
    &&& (m.loading.dom().len() < m.max_concurrent && m.queue.dom().len() > 0
        && (forall|j: RequestKey| #[trigger] is_top(m, j) ==> !m.loading.contains_key(j) && retry_count_of(m, j) == 0)
        ==> (r is Some && is_top(m, request_key(r->0)) && c == m.retry_slot_counter))
}

/// The cache after `get_next_request` chose `r`, with the counter at `c`:
/// the chosen request leaves the queue.
pub open spec fn after_choice(m: CacheModel, r: Option<ImageRequest>, c: usize) -> CacheModel {
    match r {
        None => CacheModel { retry_slot_counter: c, ..m },
        Some(q) => CacheModel { queue: m.queue.remove(request_key(q)), retry_slot_counter: c, ..m },
    }
}

/// Whether the scheduling counter value `c` grants a retry slot (every fifth request).
pub open spec fn retry_slot(c: usize) -> bool {
    c % 5 == 0
}

pub open spec fn wrap_inc(c: usize) -> usize {
    if c == usize::MAX { 0 } else { (c + 1) as usize }
}

/// Whether an entry is stale at `now`: idle for longer than `max_age` and
/// failed, pending, or loading without a live load younger than 30 s.
pub open spec fn is_stale(m: CacheModel, k: RequestKey, max_age: u64, now: u64) -> bool {
    let e = m.entries[k];
    &&& sat_sub(now, e.last_accessed) > max_age
    &&& (e.state is Failed || e.state is Pending
        || (e.state is Loading && (!m.loading.contains_key(k)
            || sat_sub(now, m.loading[k]) > STALE_LOADING_MS)))
}

/// The concurrency `adapt_concurrency` settles on for median latency `median`,
/// queue depth `depth` and current setting `current`.
pub open spec fn adapted_concurrency(median: u64, depth: nat, current: usize) -> usize {
    if depth > QUEUE_BACKUP_DEPTH && current > MIN_CONCURRENT {
        if current / 2 > MIN_CONCURRENT { (current / 2) as usize } else { MIN_CONCURRENT }
    } else if median < TARGET_LOW_MS {
        let step: usize = if median < TARGET_LOW_MS / 2 { 2 } else { 1 };
        if current + step < MAX_CONCURRENT { (current + step) as usize } else { MAX_CONCURRENT }
    } else if median > TARGET_HIGH_MS {
        let step: usize = if median > TARGET_HIGH_MS * 2 { 2 } else { 1 };
        let lowered: usize = if current >= step { (current - step) as usize } else { 0 };
        if lowered > MIN_CONCURRENT { lowered } else { MIN_CONCURRENT }
    } else {
        current
    }
}

/// The cache after taking a snapshot: only the telemetry high-water marks move.
pub open spec fn snapshot_model(m: CacheModel) -> CacheModel {
    let in_flight = m.loading.dom().len();
    let depth = m.queue.dom().len();
    CacheModel {
        telemetry: TelemetryModel {
            max_in_flight: if in_flight > m.telemetry.max_in_flight { in_flight as usize } else { m.telemetry.max_in_flight },
            max_queue_depth: if depth > m.telemetry.max_queue_depth { depth as usize } else { m.telemetry.max_queue_depth },
            ..m.telemetry
        },
        ..m
    }
}

/// Read-only picture of the cache for planning.
#[derive(Debug, Clone)]
pub struct ServiceStateSnapshot {
    /// Requests holding a loaded image.
    pub loaded: Vec<ImageRequest>,
    /// Requests with a load in flight.
    pub loading: Vec<ImageRequest>,
    /// Queued requests, at their queued priority.
    pub queued: Vec<ImageRequest>,
    pub in_flight: usize,
    pub queue_depth: usize,
}

/// The keys of a sequence of requests.
pub open spec fn keys_of(s: Seq<ImageRequest>) -> Seq<RequestKey> {
    s.map_values(|r: ImageRequest| request_key(r))
}

impl ServiceStateSnapshot {
    /// Whether `request` names an image in `set`.
    pub fn contains(set: &Vec<ImageRequest>, request: &ImageRequest) -> (b: bool)
        ensures
            b == keys_of(set@).contains(request_key(*request)),
    {
        let mut i: usize = 0;
        while i < set.len()
            invariant
                i <= set@.len(),
                forall|t: int| 0 <= t < i ==> request_key(#[trigger] set@[t]) != request_key(*request),
            decreases set@.len() - i,
        {
            if set[i].same_image(request) {
                assert(keys_of(set@)[i as int] == request_key(*request));
                return true;
            }
            i += 1;
        }
        proof {
            if keys_of(set@).contains(request_key(*request)) {
                let t = choose|t: int| 0 <= t < keys_of(set@).len() && keys_of(set@)[t] == request_key(*request);
                assert(request_key(set@[t]) == request_key(*request));
            }
        }
        false
    }
}

impl UnifiedImageService {
    /// The cache's invariant: every key names a request and the latency windows are bounded.
    pub closed spec fn wf(&self) -> bool {
        &&& forall|k: RequestKey| #[trigger] entry_map_contents(self.cache).contains_key(k) ==> valid_key(k)
        &&& forall|k: RequestKey| #[trigger] token_map_contents(self.ready_tokens).contains_key(k) ==> valid_key(k)
        &&& forall|k: RequestKey| #[trigger] loading_map_contents(self.loading).contains_key(k) ==> valid_key(k)
        &&& forall|k: RequestKey| #[trigger] queue_contents(self.queue).contains_key(k) ==> valid_key(k)
        &&& self.telemetry.wf()
    }

    pub fn new(max_concurrent: usize, limits: ImageCacheLimits) -> (s: UnifiedImageService)
        ensures
            s.wf(),
            s@.entries.dom() == Set::<RequestKey>::empty(),
            s@.tokens.dom() == Set::<RequestKey>::empty(),
            s@.loading.dom() == Set::<RequestKey>::empty(),
            s@.queue.dom() == Set::<RequestKey>::empty(),
            s@.max_concurrent == max_concurrent,
            s@.retry_slot_counter == 0,
            s@.resident == 0,
            s@.ram_max == limits.ram_max_bytes,
            s@.limits == limits,
            s@.telemetry.load_ms.len() == 0,
            s@.telemetry.display_ms.len() == 0,
            s@.telemetry.max_queue_depth == 0,
            s@.telemetry.max_in_flight == 0,
    {
        UnifiedImageService {
            cache: entry_map_new(),
            ready_tokens: token_map_new(),
            queue: queue_new(),
            loading: loading_map_new(),
            max_concurrent,
            telemetry: Telemetry::new(),
            retry_slot_counter: 0,
            last_known_ram_usage: 0,
            ram_max_bytes: limits.ram_max_bytes,
            limits,
        }
    }

    /// Record a ready blob token; a pending entry loses its retry throttle.
    pub fn set_ready_token(&mut self, request: &ImageRequest, token: String)
        requires
            old(self).wf(),
        ensures
            final(self).wf(),
            ({
                let k = request_key(*request);
                let m = CacheModel { tokens: old(self)@.tokens.insert(k, token), ..old(self)@ };
                final(self)@ == if m.entries.contains_key(k) && m.entries[k].state is Pending {
                    with_entry(m, k, ImageEntry { last_failure: None, ..m.entries[k] })
                } else {
                    m
                }
            }),
    {
        let k = request.key();
        token_map_insert(&mut self.ready_tokens, k, token);
        match entry_map_get(&self.cache, &k) {
            Some(e) => {
                if let LoadState::Pending = e.state {
                    let e2 = ImageEntry { last_failure: None, ..e };
                    entry_map_insert(&mut self.cache, k, e2);
                }
            },
            None => {},
        }
    }

    pub fn ready_token(&self, request: &ImageRequest) -> (r: Option<String>)
        ensures
            r == (if self@.tokens.contains_key(request_key(*request)) {
                Some(self@.tokens[request_key(*request)])
            } else {
                None
            }),
    {
        token_map_get(&self.ready_tokens, &request.key())
    }

    pub fn clear_ready_token(&mut self, request: &ImageRequest)
        requires
            old(self).wf(),
        ensures
            final(self).wf(),
            final(self)@ == (CacheModel { tokens: old(self)@.tokens.remove(request_key(*request)), ..old(self)@ }),
    {
        token_map_remove(&mut self.ready_tokens, &request.key());
    }

    /// Maximum allowed concurrent loads.
    pub fn max_concurrent(&self) -> (n: usize)
        ensures
            n == self@.max_concurrent,
    {
        self.max_concurrent
    }

    pub fn ram_max_bytes(&self) -> (n: u64)
        ensures
            n == self@.ram_max,
    {
        self.ram_max_bytes
    }

    /// Estimated bytes held by loaded images.
    pub fn resident_bytes(&self) -> (n: u64)
        ensures
            n == self@.resident,
    {
        self.last_known_ram_usage
    }

    /// Keep a loaded entry warm for eviction, at most once per `min_interval_ms`.
    pub fn touch_loaded(&mut self, request: &ImageRequest, min_interval_ms: u64, now: u64)
        requires
            old(self).wf(),
        ensures
            final(self).wf(),
            ({
                let k = request_key(*request);
                let m = old(self)@;
                final(self)@ == if m.entries.contains_key(k) && m.entries[k].state is Loaded
                    && sat_sub(now, m.entries[k].last_accessed) >= min_interval_ms {
                    with_entry(m, k, ImageEntry { last_accessed: now, ..m.entries[k] })
                } else {
                    m
                }
            }),
    {
        let k = request.key();
        let e = match entry_map_get(&self.cache, &k) {
            Some(e) => e,
            None => return,
        };
        if !matches!(e.state, LoadState::Loaded(_)) {
            return;
        }
        let elapsed = now.saturating_sub(e.last_accessed);
        if elapsed >= min_interval_ms {
            let e2 = ImageEntry { last_accessed: now, ..e };
            entry_map_insert(&mut self.cache, k, e2);
        }
    }

    /// The handle of a loaded request.
    pub fn get(&self, request: &ImageRequest) -> (r: Option<u64>)
        ensures
            r == (match self@.entries.get(request_key(*request)) {
                Some(e) => match e.state {
                    LoadState::Loaded(h) => Some(h),
                    _ => None,
                },
                None => None,
            }),
    {
        match entry_map_get(&self.cache, &request.key()) {
            Some(e) => match e.state {
                LoadState::Loaded(h) => Some(h),
                _ => None,
            },
            None => None,
        }
    }

    /// The handle of a loaded request with the time it finished loading.
    pub fn get_with_load_time(&self, request: &ImageRequest) -> (r: Option<(u64, Option<u64>)>)
        ensures
            r == (match self@.entries.get(request_key(*request)) {
                Some(e) => match e.state {
                    LoadState::Loaded(h) => Some((h, e.loaded_at)),
                    _ => None,
                },
                None => None,
            }),
    {
        match entry_map_get(&self.cache, &request.key()) {
            Some(e) => match e.state {
                LoadState::Loaded(h) => Some((h, e.loaded_at)),
                _ => None,
            },
            None => None,
        }
    }

    /// The handle of a loaded request, its load time and its first-display hint,
    /// consuming the hint. The first consumption records the display time and,
    /// when no hint was set, hints a single flip.
    pub fn take_loaded_entry(&mut self, request: &ImageRequest, now: u64)
        -> (r: Option<(u64, Option<u64>, Option<FirstDisplayHint>)>)
        requires
            old(self).wf(),
        ensures
            final(self).wf(),
            r == taken_result(old(self)@, request_key(*request)),
            final(self)@ == taken_model(old(self)@, request_key(*request), now),
    {
        let k = request.key();
        let e = match entry_map_get(&self.cache, &k) {
            Some(e) => e,
            None => return None,
        };
        let handle = match e.state {
            LoadState::Loaded(h) => h,
            _ => return None,
        };
        let mut newly_displayed: Option<u64> = None;
        let first = e.first_displayed_at.is_none();
        let default_hint = if first {
            if let Some(loaded_at) = e.loaded_at {
                newly_displayed = Some(now.saturating_sub(loaded_at));
            }
            Some(FirstDisplayHint::FlipOnce)
        } else {
            None
        };
        let loaded_at = e.loaded_at;
        let hint = match e.first_display_hint {
            Some(h) => Some(h),
            None => default_hint,
        };
        let e2 = ImageEntry {
            last_accessed: now,
            first_displayed_at: if first { Some(now) } else { e.first_displayed_at },
            first_display_hint: None,
            ..e
        };
        entry_map_insert(&mut self.cache, k, e2);
        if let Some(d) = newly_displayed {
            self.telemetry.record_display_latency(d);
        }
        Some((handle, loaded_at, hint))
    }

    /// Move a request to the loading state at `now`.
    pub fn mark_loading(&mut self, request: &ImageRequest, now: u64)
        requires
            old(self).wf(),
        ensures
            final(self).wf(),
            ({
                let k = request_key(*request);
                let m = old(self)@;
                final(self)@ == CacheModel {
                    loading: m.loading.insert(k, now),
                    entries: m.entries.insert(k, loading_entry(m.entries.get(k), now)),
                    ..m
                }
            }),
    {
        let k = request.key();
        loading_map_insert(&mut self.loading, k, now);
        let prev = entry_map_get(&self.cache, &k);
        let e = match prev {
            Some(e) => ImageEntry {
                state: LoadState::Loading,
                last_accessed: now,
                loaded_at: None,
                requested_at: if e.requested_at.is_some() { e.requested_at } else { Some(now) },
                loading_started_at: Some(now),
                first_displayed_at: e.first_displayed_at,
                retry_count: e.retry_count,
                last_failure: e.last_failure,
                first_display_hint: e.first_display_hint,
                estimated_bytes: e.estimated_bytes,
            },
            None => ImageEntry {
                state: LoadState::Loading,
                last_accessed: now,
                loaded_at: None,
                requested_at: Some(now),
                loading_started_at: Some(now),
                first_displayed_at: None,
                retry_count: 0,
                last_failure: None,
                first_display_hint: None,
                estimated_bytes: 0,
            },
        };
        entry_map_insert(&mut self.cache, k, e);
    }

    /// Drop the entry under `k`, releasing the bytes of a loaded image from the
    /// resident estimate; returns the bytes released.
    fn remove_entry_and_account(&mut self, k: &RequestKey) -> (freed: u64)
        requires
            old(self).wf(),
        ensures
            final(self).wf(),
            ({
                let m = old(self)@;
                let b = if m.entries.contains_key(*k) { released_bytes(m.entries[*k]) } else { 0 };
                &&& freed == b
                &&& final(self)@ == CacheModel {
                    entries: m.entries.remove(*k),
                    resident: if b > 0 { wrap_sub(m.resident, b) } else { m.resident },
                    ..m
                }
            }),
    {
        let removed = entry_map_remove(&mut self.cache, k);
        match removed {
            Some(e) => {
                if matches!(e.state, LoadState::Loaded(_)) && e.estimated_bytes > 0 {
                    let bytes = e.estimated_bytes;
                    self.last_known_ram_usage = self.last_known_ram_usage.wrapping_sub(bytes);
                    bytes
                } else {
                    0
                }
            },
            None => 0,
        }
    }

    fn adjust_resident_bytes(&mut self, prev: u64, next: u64)
        requires
            old(self).wf(),
        ensures
            final(self).wf(),
            final(self)@ == (CacheModel { resident: adjusted(old(self)@.resident, prev, next), ..old(self)@ }),
    {
        if next == prev {
            proof {
                assert(wrap_sub(self.last_known_ram_usage, 0) == self.last_known_ram_usage);
            }
            return;
        }
        if next > prev {
            self.last_known_ram_usage = self.last_known_ram_usage.wrapping_add(next - prev);
        } else {
            self.last_known_ram_usage = self.last_known_ram_usage.wrapping_sub(prev - next);
        }
    }

    /// Record a failed load: the retry count grows, loaded bytes are released.
    pub fn mark_failed(&mut self, request: &ImageRequest, error: String, now: u64)
        requires
            old(self).wf(),
        ensures
            final(self).wf(),
            ({
                let k = request_key(*request);
                let m = old(self)@;
                let m1 = CacheModel { tokens: m.tokens.remove(k), loading: m.loading.remove(k), ..m };
                final(self)@ == match m.entries.get(k) {
                    Some(e) => CacheModel {
                        entries: m.entries.insert(k, failed_entry(e, error, now)),
                        resident: if released_bytes(e) > 0 { wrap_sub(m.resident, released_bytes(e)) } else { m.resident },
                        ..m1
                    },
                    None => CacheModel {
                        entries: m.entries.insert(k, fresh_entry(LoadState::Failed(error), now, 1)),
                        ..m1
                    },
                }
            }),
    {
        let k = request.key();
        token_map_remove(&mut self.ready_tokens, &k);
        loading_map_remove(&mut self.loading, &k);
        match entry_map_get(&self.cache, &k) {
            Some(e) => {
                let mut bytes = e.estimated_bytes;
                if matches!(e.state, LoadState::Loaded(_)) && e.estimated_bytes > 0 {
                    self.last_known_ram_usage = self.last_known_ram_usage.wrapping_sub(e.estimated_bytes);
                    bytes = 0;
                }
                let e2 = ImageEntry {
                    state: LoadState::Failed(error),
                    retry_count: e.retry_count.saturating_add(1),
                    last_failure: Some(now),
                    estimated_bytes: bytes,
                    ..e
                };
                entry_map_insert(&mut self.cache, k, e2);
            },
            None => {
                let e2 = ImageEntry {
                    state: LoadState::Failed(error),
                    last_accessed: now,
                    loaded_at: None,
                    requested_at: Some(now),
                    loading_started_at: Some(now),
                    first_displayed_at: None,
                    retry_count: 1,
                    last_failure: Some(now),
                    first_display_hint: None,
                    estimated_bytes: 0,
                };
                entry_map_insert(&mut self.cache, k, e2);
            },
        }
    }

    /// Record that the server has no blob yet; the request waits for a retry.
    pub fn mark_pending(&mut self, request: &ImageRequest, now: u64)
        requires
            old(self).wf(),
        ensures
            final(self).wf(),
            ({
                let k = request_key(*request);
                let m = old(self)@;
                let m1 = CacheModel { tokens: m.tokens.remove(k), loading: m.loading.remove(k), ..m };
                final(self)@ == match m.entries.get(k) {
                    Some(e) => CacheModel {
                        entries: m.entries.insert(k, pending_entry(e, now)),
                        resident: if released_bytes(e) > 0 { wrap_sub(m.resident, released_bytes(e)) } else { m.resident },
                        ..m1
                    },
                    None => CacheModel {
                        entries: m.entries.insert(k, fresh_entry(LoadState::Pending, now, 0)),
                        ..m1
                    },
                }
            }),
    {
        let k = request.key();
        token_map_remove(&mut self.ready_tokens, &k);
        loading_map_remove(&mut self.loading, &k);
        match entry_map_get(&self.cache, &k) {
            Some(e) => {
                let mut bytes = e.estimated_bytes;
                if matches!(e.state, LoadState::Loaded(_)) && e.estimated_bytes > 0 {
                    self.last_known_ram_usage = self.last_known_ram_usage.wrapping_sub(e.estimated_bytes);
                    bytes = 0;
                }
                let e2 = ImageEntry {
                    state: LoadState::Pending,
                    last_accessed: now,
                    last_failure: Some(now),
                    estimated_bytes: bytes,
                    ..e
                };
                entry_map_insert(&mut self.cache, k, e2);
            },
            None => {
                let e2 = ImageEntry {
                    state: LoadState::Pending,
                    last_accessed: now,
                    loaded_at: None,
                    requested_at: Some(now),
                    loading_started_at: Some(now),
                    first_displayed_at: None,
                    retry_count: 0,
                    last_failure: Some(now),
                    first_display_hint: None,
                    estimated_bytes: 0,
                };
                entry_map_insert(&mut self.cache, k, e2);
            },
        }
    }

    /// Set the first-display hint of a request, creating a loading entry if needed.
    pub fn flag_first_display_hint(&mut self, request: &ImageRequest, hint: FirstDisplayHint, now: u64)
        requires
            old(self).wf(),
        ensures
            final(self).wf(),
            ({
                let k = request_key(*request);
                let m = old(self)@;
                final(self)@ == match m.entries.get(k) {
                    Some(e) => with_entry(m, k, ImageEntry { first_display_hint: Some(hint), ..e }),
                    None => with_entry(m, k, ImageEntry {
                        state: LoadState::Loading,
                        last_accessed: now,
                        loaded_at: None,
                        requested_at: Some(now),
                        loading_started_at: Some(now),
                        first_displayed_at: None,
                        retry_count: 0,
                        last_failure: None,
                        first_display_hint: Some(hint),
                        estimated_bytes: 0,
                    }),
                }
            }),
    {
        let k = request.key();
        match entry_map_get(&self.cache, &k) {
            Some(e) => {
                entry_map_insert(&mut self.cache, k, ImageEntry { first_display_hint: Some(hint), ..e });
            },
            None => {
                entry_map_insert(&mut self.cache, k, ImageEntry {
                    state: LoadState::Loading,
                    last_accessed: now,
                    loaded_at: None,
                    requested_at: Some(now),
                    loading_started_at: Some(now),
                    first_displayed_at: None,
                    retry_count: 0,
                    last_failure: None,
                    first_display_hint: Some(hint),
                    estimated_bytes: 0,
                });
            },
        }
    }

    /// Forget a cancelled load entirely.
    pub fn mark_cancelled(&mut self, request: &ImageRequest)
        requires
            old(self).wf(),
        ensures
            final(self).wf(),
            ({
                let k = request_key(*request);
                let m = old(self)@;
                let b = if m.entries.contains_key(k) { released_bytes(m.entries[k]) } else { 0 };
                final(self)@ == CacheModel {
                    tokens: m.tokens.remove(k),
                    loading: m.loading.remove(k),
                    entries: m.entries.remove(k),
                    resident: if b > 0 { wrap_sub(m.resident, b) } else { m.resident },
                    ..m
                }
            }),
    {
        let k = request.key();
        token_map_remove(&mut self.ready_tokens, &k);
        loading_map_remove(&mut self.loading, &k);
        let _ = self.remove_entry_and_account(&k);
    }

    /// Number of queued requests (not counting those loading).
    pub fn queue_len(&self) -> (n: usize)
        ensures
            n == self@.queue.dom().len(),
    {
        queue_len(&self.queue)
    }

    pub fn is_loaded(&self, request: &ImageRequest) -> (b: bool)
        ensures
            b == (self@.entries.contains_key(request_key(*request))
                && self@.entries[request_key(*request)].state is Loaded),
    {
        match entry_map_get(&self.cache, &request.key()) {
            Some(e) => matches!(e.state, LoadState::Loaded(_)),
            None => false,
        }
    }

    pub fn is_loading(&self, request: &ImageRequest) -> (b: bool)
        ensures
            b == self@.loading.contains_key(request_key(*request)),
    {
        loading_map_contains(&self.loading, &request.key())
    }

    /// When the request entered the loading state.
    pub fn loading_started_at(&self, request: &ImageRequest) -> (r: Option<u64>)
        ensures
            r == self@.loading.get(request_key(*request)),
    {
        loading_map_get(&self.loading, &request.key())
    }

    pub fn is_queued(&self, request: &ImageRequest) -> (b: bool)
        ensures
            b == self@.queue.contains_key(request_key(*request)),
    {
        queue_get_priority(&self.queue, &request.key()).is_some()
    }

    /// Set the load concurrency (at least one).
    pub fn set_max_concurrent(&mut self, n: usize)
        requires
            old(self).wf(),
        ensures
            final(self).wf(),
            final(self)@ == (CacheModel { max_concurrent: if n >= 1 { n } else { 1 }, ..old(self)@ }),
    {
        self.max_concurrent = if n >= 1 { n } else { 1 };
    }

    /// Take a request out of the pending queue; returns whether it was queued.
    pub fn remove_from_queue(&mut self, request: &ImageRequest) -> (b: bool)
        requires
            old(self).wf(),
        ensures
            final(self).wf(),
            b == old(self)@.queue.contains_key(request_key(*request)),
            final(self)@ == (CacheModel { queue: old(self)@.queue.remove(request_key(*request)), ..old(self)@ }),
    {
        queue_remove(&mut self.queue, &request.key())
    }

    /// Ask for an image. Returns whether the loader should be woken: the
    /// request was newly queued or its queued priority was raised.
    pub fn request_image(&mut self, request: ImageRequest, now: u64) -> (wake: bool)
        requires
            old(self).wf(),
        ensures
            final(self).wf(),
            final(self)@ == requested_model(old(self)@, request, now),
            wake == (request_proceeds(old(self)@, request_key(request), now)
                && (!old(self)@.queue.contains_key(request_key(request))
                    || priority_weight(request.priority) > old(self)@.queue[request_key(request)])),
    {
        let k = request.key();
        match entry_map_get(&self.cache, &k) {
            Some(e) => {
                let is_loaded = matches!(e.state, LoadState::Loaded(_));
                let is_failed = matches!(e.state, LoadState::Failed(_));
                let is_pending = matches!(e.state, LoadState::Pending);
                let is_failed_404 = match &e.state {
                    LoadState::Failed(err) => str_contains(err.as_str(), "404"),
                    _ => false,
                };
                let mut blocked = false;
                if is_loaded {
                    blocked = true;
                } else if is_failed && !is_failed_404 && e.retry_count >= self.limits.max_retry_attempts {
                    blocked = true;
                } else if is_failed || is_pending {
                    if let Some(last_failure) = e.last_failure {
                        let throttle: u64 = if is_failed_404 {
                            let exp: u8 = if e.retry_count < 4 { e.retry_count } else { 4 };
                            let mult: u64 = if exp == 0 { 1 } else if exp == 1 { 2 } else if exp == 2 { 4 } else if exp == 3 { 8 } else { 16 };
                            let backoff_ms: u64 = 750u64 * mult;
                            if backoff_ms < 8000 { backoff_ms } else { 8000 }
                        } else {
                            self.limits.retry_throttle_ms
                        };
                        if now.saturating_sub(last_failure) < throttle {
                            blocked = true;
                        }
                    }
                }
                let requested_at = if blocked || e.requested_at.is_some() { e.requested_at } else { Some(now) };
                let e2 = ImageEntry { last_accessed: now, requested_at, ..e };
                entry_map_insert(&mut self.cache, k, e2);
                if blocked {
                    return false;
                }
            },
            None => {},
        }
        if loading_map_contains(&self.loading, &k) {
            return false;
        }
        let requested_priority = request.priority.weight();
        match queue_get_priority(&self.queue, &k) {
            Some(existing) => {
                if requested_priority > existing {
                    queue_change_priority(&mut self.queue, &k, requested_priority);
                    true
                } else {
                    false
                }
            },
            None => {
                queue_push(&mut self.queue, k, requested_priority);
                true
            },
        }
    }

    /// Record a completed load of `bytes` bytes under handle id `handle`, then
    /// enforce the RAM budget.
    pub fn mark_loaded(&mut self, request: &ImageRequest, handle: u64, estimated_bytes: u64, now: u64)
        requires
            old(self).wf(),
        ensures
            final(self).wf(),
            budget_enforced(loaded_model(old(self)@, request_key(*request), handle, estimated_bytes, now), final(self)@),
    {
        let k = request.key();
        token_map_remove(&mut self.ready_tokens, &k);
        loading_map_remove(&mut self.loading, &k);
        let prev = entry_map_get(&self.cache, &k);
        let (existing_hint, prev_requested, prev_loading_started, prev_first_displayed, prev_bytes) = match prev {
            Some(e) => (e.first_display_hint, e.requested_at, e.loading_started_at, e.first_displayed_at, e.estimated_bytes),
            None => (None, None, None, None, 0u64),
        };
        let entry = ImageEntry {
            state: LoadState::Loaded(handle),
            last_accessed: now,
            loaded_at: Some(now),
            requested_at: prev_requested,
            loading_started_at: prev_loading_started,
            first_displayed_at: prev_first_displayed,
            retry_count: 0,
            last_failure: None,
            first_display_hint: existing_hint,
            estimated_bytes,
        };
        entry_map_insert(&mut self.cache, k, entry);
        self.adjust_resident_bytes(prev_bytes, estimated_bytes);
        if let Some(started) = prev_loading_started {
            let since = now.saturating_sub(started);
            if since < LOAD_SAMPLE_LIMIT_MS {
                self.telemetry.record_load_duration(since);
            }
        }
        proof {
            assert(self@ == loaded_model(old(self)@, k, handle, estimated_bytes, now));
        }
        self.enforce_ram_budget();
    }

    /// Set the RAM cap, then enforce it.
    pub fn set_ram_max_bytes(&mut self, bytes: u64)
        requires
            old(self).wf(),
        ensures
            final(self).wf(),
            budget_enforced(CacheModel { ram_max: bytes, ..old(self)@ }, final(self)@),
    {
        self.ram_max_bytes = bytes;
        self.enforce_ram_budget();
    }

    /// Evict least-recently-accessed loaded images until the resident estimate
    /// is at or below 90% of the cap (only when it is above the cap).
    pub fn enforce_ram_budget(&mut self)
        requires
            old(self).wf(),
        ensures
            final(self).wf(),
            budget_enforced(old(self)@, final(self)@),
    {
        let ghost pre = self@;
        let max = self.ram_max_bytes;
        let mut resident = self.last_known_ram_usage;
        if resident <= max {
            return;
        }
        let target = max - max / 10;
        let keys = entry_map_keys(&self.cache);
        let mut cands: Vec<(u64, RequestKey)> = Vec::new();
        let mut i: usize = 0;
        while i < keys.len()
            invariant
                self@ == pre,
                self.wf(),
                i <= keys@.len(),
                keys@.no_duplicates(),
                keys@.to_set() == pre.entries.dom(),
                forall|t: int| 0 <= t < cands@.len() ==> {
                    let c = #[trigger] cands@[t];
                    &&& pre.entries.contains_key(c.1)
                    &&& pre.entries[c.1].state is Loaded
                    &&& c.0 == pre.entries[c.1].last_accessed
                    &&& exists|u: int| 0 <= u < i && keys@[u] == c.1
                },
                forall|a: int, b: int| 0 <= a < b < cands@.len() ==> #[trigger] cands@[a].1 != #[trigger] cands@[b].1,
                forall|u: int| 0 <= u < i && pre.entries[#[trigger] keys@[u]].state is Loaded ==>
                    cands@.contains((pre.entries[keys@[u]].last_accessed, keys@[u])),
            decreases keys@.len() - i,
        {
            let k = keys[i];
            assert(keys@.to_set().contains(k));
            match entry_map_get(&self.cache, &k) {
                Some(e) => {
                    if matches!(e.state, LoadState::Loaded(_)) {
                        let ghost before = cands@;
                        cands.push((e.last_accessed, k));
                        proof {
                            assert forall|t: int| 0 <= t < cands@.len() implies {
                                let c = #[trigger] cands@[t];
                                &&& pre.entries.contains_key(c.1)
                                &&& pre.entries[c.1].state is Loaded
                                &&& c.0 == pre.entries[c.1].last_accessed
                                &&& exists|u: int| 0 <= u < i + 1 && keys@[u] == c.1
                            } by {
                                if t < before.len() {
                                    assert(before[t] == cands@[t]);
                                } else {
                                    assert(keys@[i as int] == k);
                                }
                            }
                            assert forall|a: int, b: int| 0 <= a < b < cands@.len() implies #[trigger] cands@[a].1 != #[trigger] cands@[b].1 by {
                                if b == before.len() {
                                    assert(before[a] == cands@[a]);
                                    let u = choose|u: int| 0 <= u < i && keys@[u] == before[a].1;
                                    assert(keys@[u] != keys@[i as int]);
                                } else {
                                    assert(before[a] == cands@[a]);
                                    assert(before[b] == cands@[b]);
                                }
                            }
                            assert forall|u: int| 0 <= u < i + 1 && pre.entries[#[trigger] keys@[u]].state is Loaded implies
                                cands@.contains((pre.entries[keys@[u]].last_accessed, keys@[u])) by {
                                if u < i {
                                    let t = choose|t: int| 0 <= t < before.len() && before[t] == (pre.entries[keys@[u]].last_accessed, keys@[u]);
                                    assert(cands@[t] == before[t]);
                                } else {
                                    assert(cands@[before.len() as int] == (e.last_accessed, k));
                                }
                            }
                        }
                    }
                },
                None => {},
            }
            i += 1;
        }
        proof {
            assert forall|a: int, b: int| 0 <= a < cands@.len() && 0 <= b < cands@.len() && a != b implies cands@[a] != cands@[b] by {
                if a < b {
                    assert(cands@[a].1 != cands@[b].1);
                } else {
                    assert(cands@[b].1 != cands@[a].1);
                }
            }
            assert(cands@.no_duplicates());
        }
        let sorted = sort_by_first(&cands);
        let ghost sv = sorted@;
        proof {
            assert forall|t: int| 0 <= t < sv.len() implies {
                let c = #[trigger] sv[t];
                &&& pre.entries.contains_key(c.1)
                &&& pre.entries[c.1].state is Loaded
                &&& c.0 == pre.entries[c.1].last_accessed
            } by {
                assert(sv.contains(sv[t]));
                assert(cands@.contains(sv[t]));
                let u = choose|u: int| 0 <= u < cands@.len() && cands@[u] == sv[t];
                assert(cands@[u] == sv[t]);
            }
        }
        let mut j: usize = 0;
        while j < sorted.len()
            invariant
                sv == sorted@,
                j <= sv.len(),
                self.wf(),
                sv.no_duplicates(),
                vstd::relations::sorted_by(sv, first_leq()),
                forall|t: int| 0 <= t < sv.len() ==> {
                    let c = #[trigger] sv[t];
                    &&& pre.entries.contains_key(c.1)
                    &&& pre.entries[c.1].state is Loaded
                    &&& c.0 == pre.entries[c.1].last_accessed
                },
                forall|u: int| 0 <= u < keys@.len() && pre.entries[#[trigger] keys@[u]].state is Loaded ==>
                    sv.contains((pre.entries[keys@[u]].last_accessed, keys@[u])),
                keys@.to_set() == pre.entries.dom(),
                target == ram_target(pre.ram_max),
                pre.resident > pre.ram_max,
                self@.entries == pre.entries.remove_keys(pair_keys(sv.take(j as int)).to_set()),
                self@.resident == resident_after(pre.resident, pre.entries, pair_keys(sv.take(j as int))),
                resident == estimate_after(pre.resident, pre.entries, pair_keys(sv.take(j as int))),
                forall|t: int| 0 <= t < j ==> estimate_after(pre.resident, pre.entries,
                    #[trigger] pair_keys(sv.take(j as int)).take(t)) > target,
                self@ == (CacheModel { entries: self@.entries, resident: self@.resident, ..pre }),
            ensures
                j == sv.len() || resident <= target,
            decreases sv.len() - j,
        {
            if resident <= target {
                break;
            }
            let k = sorted[j].1;
            let ghost ev = pair_keys(sv.take(j as int));
            let ghost ev2 = pair_keys(sv.take(j + 1));
            proof {
                assert(ev2 == ev.push(k));
                assert(ev2.drop_last() == ev);
                assert(!ev.contains(k)) by {
                    if ev.contains(k) {
                        let t = choose|t: int| 0 <= t < ev.len() && ev[t] == k;
                        assert(sv[t].1 == k);
                        assert(sv[t].0 == sv[j as int].0);
                        assert(sv[t] == sv[j as int]);
                    }
                }
                assert(self@.entries.contains_key(k));
                assert(self@.entries[k] == pre.entries[k]);
            }
            let freed = self.remove_entry_and_account(&k);
            if freed > 0 {
                resident = resident.saturating_sub(freed);
            }
            proof {
                assert forall|x: RequestKey| ev2.contains(x) <==> (ev.contains(x) || x == k) by {
                    if ev2.contains(x) {
                        let t = choose|t: int| 0 <= t < ev2.len() && ev2[t] == x;
                        if t < ev.len() {
                            assert(ev[t] == x);
                        }
                    }
                    if ev.contains(x) {
                        let t = choose|t: int| 0 <= t < ev.len() && ev[t] == x;
                        assert(ev2[t] == x);
                    }
                    if x == k {
                        assert(ev2[ev.len() as int] == k);
                    }
                }
                assert(ev2.to_set() =~= ev.to_set().insert(k));
                assert(self@.entries =~= pre.entries.remove_keys(ev2.to_set()));
                assert forall|t: int| 0 <= t < j + 1 implies estimate_after(pre.resident, pre.entries,
                    #[trigger] ev2.take(t)) > target by {
                    if t < j {
                        assert(ev2.take(t) == ev.take(t));
                    } else {
                        assert(ev2.take(t) == ev);
                    }
                }
            }
            j += 1;
        }
        entry_map_shrink(&mut self.cache);
        proof {
            let ev = pair_keys(sv.take(j as int));
            assert(lru_eviction(pre, self@, ev)) by {
                assert(ev.no_duplicates()) by {
                    assert forall|a: int, b: int| 0 <= a < ev.len() && 0 <= b < ev.len() && a != b implies ev[a] != ev[b] by {
                        if sv[a].1 == sv[b].1 {
                            assert(sv[a] == sv[b]);
                        }
                    }
                }
                assert forall|a: int, b: int| 0 <= a < b < ev.len() implies
                    pre.entries[#[trigger] ev[a]].last_accessed <= pre.entries[#[trigger] ev[b]].last_accessed by {
                    assert(first_leq()(sv[a], sv[b]));
                }
                assert forall|a: int, k: RequestKey| 0 <= a < ev.len() && #[trigger] self@.entries.contains_key(k)
                    && self@.entries[k].state is Loaded implies pre.entries[#[trigger] ev[a]].last_accessed <= self@.entries[k].last_accessed by {
                    assert(pre.entries.contains_key(k));
                    assert(keys@.to_set().contains(k));
                    let u = choose|u: int| 0 <= u < keys@.len() && keys@[u] == k;
                    assert(sv.contains((pre.entries[keys@[u]].last_accessed, keys@[u])));
                    let t = choose|t: int| 0 <= t < sv.len() && sv[t] == (pre.entries[k].last_accessed, k);
                    if t < j {
                        assert(ev[t] == k);
                        assert(ev.to_set().contains(k));
                    }
                    assert(first_leq()(sv[a], sv[t]));
                }
                if !(resident <= target) {
                    assert(j == sv.len());
                    assert forall|k: RequestKey| #[trigger] self@.entries.contains_key(k) implies !(self@.entries[k].state is Loaded) by {
                        if self@.entries[k].state is Loaded {
                            assert(keys@.to_set().contains(k));
                            let u = choose|u: int| 0 <= u < keys@.len() && keys@[u] == k;
                            let t = choose|t: int| 0 <= t < sv.len() && sv[t] == (pre.entries[keys@[u]].last_accessed, keys@[u]);
                            assert(ev[t] == k);
                            assert(ev.to_set().contains(k));
                        }
                    }
                }
                assert forall|t: int| 0 <= t < ev.len() implies estimate_after(pre.resident, pre.entries, #[trigger] ev.take(t)) > ram_target(pre.ram_max) by {
                }
            }
        }
    }

    fn retry_count_for(&self, k: &RequestKey) -> (rc: u8)
        ensures
            rc == retry_count_of(self@, *k),
    {
        match entry_map_get(&self.cache, k) {
            Some(e) => e.retry_count,
            None => 0,
        }
    }

    /// Whether this scheduling slot goes to a retry (every fifth call).
    fn should_use_retry_slot(&mut self) -> (b: bool)
        requires
            old(self).wf(),
        ensures
            final(self).wf(),
            b == retry_slot(old(self)@.retry_slot_counter),
            final(self)@ == (CacheModel { retry_slot_counter: wrap_inc(old(self)@.retry_slot_counter), ..old(self)@ }),
    {
        let counter = self.retry_slot_counter;
        self.retry_slot_counter = if counter == usize::MAX { 0 } else { counter + 1 };
        counter % 5 == 0
    }

    /// Choose the next request to load and take it out of the queue: nothing
    /// while the concurrency cap is reached; a highest-priority queued request
    /// when it is fresh; otherwise a fresh request, except that every fifth such
    /// choice prefers a request that has failed before.
    pub fn get_next_request(&mut self) -> (r: Option<ImageRequest>)
        requires
            old(self).wf(),
        ensures
            final(self).wf(),
            next_choice(old(self)@, r, final(self)@.retry_slot_counter),
            final(self)@ == after_choice(old(self)@, r, final(self)@.retry_slot_counter),
    {
        proof {
            reveal(next_choice);
        }
        let ghost m = self@;
        let in_flight = loading_map_len(&self.loading);
        if in_flight >= self.max_concurrent {
            return None;
        }
        match queue_peek(&self.queue) {
            Some((top, prio)) => {
                assert(is_top(m, top));
                if !loading_map_contains(&self.loading, &top) {
                    let rc = self.retry_count_for(&top);
                    if rc == 0 {
                        queue_remove(&mut self.queue, &top);
                        return Some(request_from_key(top, prio));
                    }
                }
            },
            None => {},
        }
        let items = queue_items(&self.queue);
        let mut fresh: Option<(RequestKey, u8)> = None;
        let mut retry: Option<(RequestKey, u8)> = None;
        let mut i: usize = 0;
        while i < items.len()
            invariant
                self@ == m,
                self.wf(),
                i <= items@.len(),
                pair_keys_u8(items@).to_set() == m.queue.dom(),
                forall|t: int| 0 <= t < items@.len() ==> m.queue[#[trigger] items@[t].0] == items@[t].1,
                match fresh {
                    Some((k, p)) => is_candidate(m, k) && retry_count_of(m, k) == 0 && m.queue[k] == p,
                    None => forall|t: int| 0 <= t < i ==> !is_candidate(m, #[trigger] items@[t].0)
                        || retry_count_of(m, items@[t].0) != 0,
                },
                match retry {
                    Some((k, p)) => is_candidate(m, k) && retry_count_of(m, k) != 0 && m.queue[k] == p,
                    None => forall|t: int| 0 <= t < i ==> !is_candidate(m, #[trigger] items@[t].0)
                        || retry_count_of(m, items@[t].0) == 0,
                },
            ensures
                match fresh {
                    Some((k, p)) => is_candidate(m, k) && retry_count_of(m, k) == 0 && m.queue[k] == p,
                    None => forall|t: int| 0 <= t < items@.len() ==> !is_candidate(m, #[trigger] items@[t].0)
                        || retry_count_of(m, items@[t].0) != 0,
                },
                match retry {
                    Some((k, p)) => is_candidate(m, k) && retry_count_of(m, k) != 0 && m.queue[k] == p,
                    None => forall|t: int| 0 <= t < items@.len() ==> !is_candidate(m, #[trigger] items@[t].0)
                        || retry_count_of(m, items@[t].0) == 0,
                },
            decreases items@.len() - i,
        {
            let (k, p) = items[i];
            assert(pair_keys_u8(items@)[i as int] == k);
            assert(m.queue.contains_key(k));
            if !loading_map_contains(&self.loading, &k) {
                let rc = self.retry_count_for(&k);
                if rc == 0 && fresh.is_none() {
                    fresh = Some((k, p));
                } else if rc != 0 && retry.is_none() {
                    retry = Some((k, p));
                }
                if fresh.is_some() && retry.is_some() {
                    break;
                }
            }
            i += 1;
        }
        proof {
            assert forall|j: RequestKey| #[trigger] is_candidate(m, j) implies exists|t: int| 0 <= t < items@.len() && items@[t].0 == j by {
                assert(pair_keys_u8(items@).to_set().contains(j));
                let t = choose|t: int| 0 <= t < pair_keys_u8(items@).len() && pair_keys_u8(items@)[t] == j;
                assert(items@[t].0 == j);
            }
        }
        let use_retry_slot = self.should_use_retry_slot();
        if use_retry_slot {
            if let Some((k, p)) = retry {
                queue_remove(&mut self.queue, &k);
                return Some(request_from_key(k, p));
            }
        }
        if let Some((k, p)) = fresh {
            queue_remove(&mut self.queue, &k);
            return Some(request_from_key(k, p));
        }
        if let Some((k, p)) = retry {
            queue_remove(&mut self.queue, &k);
            return Some(request_from_key(k, p));
        }
        None
    }

    /// Pop up to `max` queued requests, highest priority first, for a manifest
    /// lookup; requests already loading stay queued.
    pub fn take_manifest_batch(&mut self, max: usize) -> (batch: Vec<ImageRequest>)
        requires
            old(self).wf(),
        ensures
            final(self).wf(),
            ({
                let m = old(self)@;
                let f = final(self)@;
                let ks = keys_of(batch@);
                &&& batch@.len() <= max
                &&& ks.no_duplicates()
                &&& forall|i: int| 0 <= i < batch@.len() ==> {
                    let k = #[trigger] ks[i];
                    &&& is_candidate(m, k)
                    &&& batch@[i] == request_of_key(k, priority_of_weight(m.queue[k]))
                }
                &&& f == (CacheModel { queue: m.queue.remove_keys(ks.to_set()), ..m })
                &&& forall|i: int, j: int| 0 <= i < j < batch@.len() ==> m.queue[#[trigger] ks[i]] >= m.queue[#[trigger] ks[j]]
                &&& forall|i: int, k: RequestKey| 0 <= i < batch@.len() && #[trigger] f.queue.contains_key(k)
                    && !m.loading.contains_key(k) ==> m.queue[k] <= m.queue[#[trigger] ks[i]]
                &&& (batch@.len() < max ==> forall|k: RequestKey| #[trigger] f.queue.contains_key(k) ==> m.loading.contains_key(k))
            }),
    {
        let ghost m = self@;
        let items = queue_items(&self.queue);
        proof {
            assert(pair_keys_u8(items@).to_set().finite());
        }
        let mut batch: Vec<ImageRequest> = Vec::new();
        let mut skipped: Vec<(RequestKey, u8)> = Vec::new();
        while batch.len() < max
            invariant
                self.wf(),
                self@ == (CacheModel { queue: self@.queue, ..m }),
                self@.queue.dom().finite(),
                batch@.len() <= max,
                keys_of(batch@).no_duplicates(),
                forall|i: int| 0 <= i < batch@.len() ==> {
                    let k = #[trigger] keys_of(batch@)[i];
                    &&& is_candidate(m, k)
                    &&& batch@[i] == request_of_key(k, priority_of_weight(m.queue[k]))
                    &&& !self@.queue.contains_key(k)
                },
                forall|i: int| 0 <= i < skipped@.len() ==> {
                    let e = #[trigger] skipped@[i];
                    &&& m.queue.contains_key(e.0)
                    &&& m.loading.contains_key(e.0)
                    &&& m.queue[e.0] == e.1
                    &&& !self@.queue.contains_key(e.0)
                },
                forall|a: int, b: int| 0 <= a < b < skipped@.len() ==> #[trigger] skipped@[a].0 != #[trigger] skipped@[b].0,
                forall|k: RequestKey| #[trigger] self@.queue.contains_key(k) ==> m.queue.contains_key(k) && self@.queue[k] == m.queue[k],
                forall|k: RequestKey| #[trigger] m.queue.contains_key(k) ==> self@.queue.contains_key(k)
                    || keys_of(batch@).contains(k) || pair_keys_u8(skipped@).contains(k),
                forall|i: int, j: int| 0 <= i < j < batch@.len() ==> m.queue[#[trigger] keys_of(batch@)[i]] >= m.queue[#[trigger] keys_of(batch@)[j]],
                forall|i: int, k: RequestKey| 0 <= i < batch@.len() && #[trigger] self@.queue.contains_key(k)
                    ==> m.queue[k] <= m.queue[#[trigger] keys_of(batch@)[i]],
            ensures
                batch@.len() >= max || (self@.queue.dom().finite() && self@.queue.dom().len() == 0),
            decreases self@.queue.dom().len(),
        {
            let ghost before = self@.queue;
            let popped = queue_pop(&mut self.queue);
            match popped {
                None => {
                    break;
                },
                Some((req, prio)) => {
                    if loading_map_contains(&self.loading, &req) {
                        let ghost sk = skipped@;
                        skipped.push((req, prio));
                        proof {
                            assert forall|a: int, b: int| 0 <= a < b < skipped@.len() implies #[trigger] skipped@[a].0 != #[trigger] skipped@[b].0 by {
                                if b == sk.len() {
                                    assert(skipped@[a] == sk[a]);
                                } else {
                                    assert(skipped@[a] == sk[a]);
                                    assert(skipped@[b] == sk[b]);
                                }
                            }
                            assert forall|k: RequestKey| #[trigger] m.queue.contains_key(k) implies self@.queue.contains_key(k)
                                || keys_of(batch@).contains(k) || pair_keys_u8(skipped@).contains(k) by {
                                if k == req {
                                    assert(pair_keys_u8(skipped@)[sk.len() as int] == req);
                                } else if pair_keys_u8(sk).contains(k) {
                                    let t = choose|t: int| 0 <= t < pair_keys_u8(sk).len() && pair_keys_u8(sk)[t] == k;
                                    assert(pair_keys_u8(skipped@)[t] == k);
                                }
                            }
                        }
                        continue;
                    }
                    let ghost bb = batch@;
                    let r = request_from_key(req, prio);
                    batch.push(r);
                    proof {
                        assert(keys_of(batch@) == keys_of(bb).push(req));
                        assert forall|i: int| 0 <= i < batch@.len() implies {
                            let k = #[trigger] keys_of(batch@)[i];
                            &&& is_candidate(m, k)
                            &&& batch@[i] == request_of_key(k, priority_of_weight(m.queue[k]))
                            &&& !self@.queue.contains_key(k)
                        } by {
                            if i < bb.len() {
                                assert(keys_of(batch@)[i] == keys_of(bb)[i]);
                            }
                        }
                        assert(keys_of(batch@).no_duplicates()) by {
                            assert forall|a: int, b: int| 0 <= a < batch@.len() && 0 <= b < batch@.len() && a != b implies keys_of(batch@)[a] != keys_of(batch@)[b] by {
                                if a < bb.len() && b < bb.len() {
                                    assert(keys_of(batch@)[a] == keys_of(bb)[a]);
                                    assert(keys_of(batch@)[b] == keys_of(bb)[b]);
                                } else if a < bb.len() {
                                    assert(keys_of(batch@)[a] == keys_of(bb)[a]);
                                } else if b < bb.len() {
                                    assert(keys_of(batch@)[b] == keys_of(bb)[b]);
                                }
                            }
                        }
                        assert forall|k: RequestKey| #[trigger] m.queue.contains_key(k) implies self@.queue.contains_key(k)
                            || keys_of(batch@).contains(k) || pair_keys_u8(skipped@).contains(k) by {
                            if k == req {
                                assert(keys_of(batch@)[bb.len() as int] == req);
                            } else if keys_of(bb).contains(k) {
                                let t = choose|t: int| 0 <= t < keys_of(bb).len() && keys_of(bb)[t] == k;
                                assert(keys_of(batch@)[t] == k);
                            }
                        }
                        assert forall|i: int, j: int| 0 <= i < j < batch@.len() implies m.queue[#[trigger] keys_of(batch@)[i]] >= m.queue[#[trigger] keys_of(batch@)[j]] by {
                            if j < bb.len() {
                                assert(keys_of(batch@)[i] == keys_of(bb)[i]);
                                assert(keys_of(batch@)[j] == keys_of(bb)[j]);
                            } else {
                                assert(keys_of(batch@)[i] == keys_of(bb)[i]);
                                assert(before.contains_key(req));
                            }
                        }
                        assert forall|i: int, k: RequestKey| 0 <= i < batch@.len() && #[trigger] self@.queue.contains_key(k)
                            implies m.queue[k] <= m.queue[#[trigger] keys_of(batch@)[i]] by {
                            if i < bb.len() {
                                assert(keys_of(batch@)[i] == keys_of(bb)[i]);
                            } else {
                                assert(before.contains_key(k));
                            }
                        }
                    }
                },
            }
        }
        let ghost after_pops = self@.queue;
        proof {
            if batch@.len() < max {
                after_pops.dom().lemma_len0_is_empty();
            }
        }
        let mut t: usize = 0;
        while t < skipped.len()
            invariant
                self.wf(),
                t <= skipped@.len(),
                self@ == (CacheModel { queue: self@.queue, ..m }),
                forall|i: int| 0 <= i < skipped@.len() ==> {
                    let e = #[trigger] skipped@[i];
                    &&& m.queue.contains_key(e.0)
                    &&& m.loading.contains_key(e.0)
                    &&& m.queue[e.0] == e.1
                    &&& !after_pops.contains_key(e.0)
                },
                forall|a: int, b: int| 0 <= a < b < skipped@.len() ==> #[trigger] skipped@[a].0 != #[trigger] skipped@[b].0,
                forall|k: RequestKey| #[trigger] self@.queue.contains_key(k) <==> (after_pops.contains_key(k)
                    || exists|i: int| 0 <= i < t && skipped@[i].0 == k),
                forall|k: RequestKey| #[trigger] self@.queue.contains_key(k) ==> self@.queue[k] == m.queue[k],
                forall|k: RequestKey| #[trigger] after_pops.contains_key(k) ==> m.queue.contains_key(k) && after_pops[k] == m.queue[k],
            decreases skipped@.len() - t,
        {
            let (k, p) = skipped[t];
            queue_push(&mut self.queue, k, p);
            proof {
                assert forall|j: RequestKey| #[trigger] self@.queue.contains_key(j) <==> (after_pops.contains_key(j)
                    || exists|i: int| 0 <= i < t + 1 && skipped@[i].0 == j) by {
                    if j == k {
                        assert(skipped@[t as int].0 == k);
                    }
                }
            }
            t += 1;
        }
        proof {
            let ks = keys_of(batch@);
            assert(self@.queue =~= m.queue.remove_keys(ks.to_set())) by {
                assert forall|k: RequestKey| #[trigger] self@.queue.contains_key(k) <==> m.queue.remove_keys(ks.to_set()).contains_key(k) by {
                    if self@.queue.contains_key(k) {
                        if after_pops.contains_key(k) {
                            if ks.contains(k) {
                                let i = choose|i: int| 0 <= i < ks.len() && ks[i] == k;
                            }
                        } else {
                            let i = choose|i: int| 0 <= i < t && skipped@[i].0 == k;
                            if ks.contains(k) {
                                let b = choose|b: int| 0 <= b < ks.len() && ks[b] == k;
                                assert(m.loading.contains_key(k));
                            }
                        }
                    }
                    if m.queue.remove_keys(ks.to_set()).contains_key(k) {
                        assert(m.queue.contains_key(k));
                        if !after_pops.contains_key(k) {
                            if pair_keys_u8(skipped@).contains(k) {
                                let i = choose|i: int| 0 <= i < pair_keys_u8(skipped@).len() && pair_keys_u8(skipped@)[i] == k;
                                assert(skipped@[i].0 == k);
                            }
                        }
                    }
                }
            }
            assert forall|i: int, k: RequestKey| 0 <= i < batch@.len() && #[trigger] self@.queue.contains_key(k)
                && !m.loading.contains_key(k) implies m.queue[k] <= m.queue[#[trigger] ks[i]] by {
                if !after_pops.contains_key(k) {
                    let j = choose|j: int| 0 <= j < t && skipped@[j].0 == k;
                }
            }
            if batch@.len() < max {
                assert forall|k: RequestKey| #[trigger] self@.queue.contains_key(k) implies m.loading.contains_key(k) by {
                    if after_pops.contains_key(k) {
                    } else {
                        let j = choose|j: int| 0 <= j < t && skipped@[j].0 == k;
                    }
                }
            }
        }
        batch
    }

    /// Drop stale entries (see `is_stale`) and their loads, then enforce the RAM budget.
    pub fn cleanup_stale_entries(&mut self, max_age_ms: u64, now: u64)
        requires
            old(self).wf(),
        ensures
            final(self).wf(),
            ({
                let m = old(self)@;
                let stale = Set::new(|k: RequestKey| m.entries.contains_key(k) && is_stale(m, k, max_age_ms, now));
                budget_enforced(CacheModel {
                    entries: m.entries.remove_keys(stale),
                    loading: m.loading.remove_keys(stale),
                    ..m
                }, final(self)@)
            }),
    {
        let ghost m = self@;
        let ghost stale = Set::new(|k: RequestKey| m.entries.contains_key(k) && is_stale(m, k, max_age_ms, now));
        let keys = entry_map_keys(&self.cache);
        let mut to_remove: Vec<RequestKey> = Vec::new();
        let mut i: usize = 0;
        while i < keys.len()
            invariant
                self@ == m,
                i <= keys@.len(),
                keys@.to_set() == m.entries.dom(),
                keys@.no_duplicates(),
                stale == Set::new(|k: RequestKey| m.entries.contains_key(k) && is_stale(m, k, max_age_ms, now)),
                forall|t: int| 0 <= t < to_remove@.len() ==> #[trigger] stale.contains(to_remove@[t]),
                forall|t: int| 0 <= t < i && stale.contains(#[trigger] keys@[t]) ==> to_remove@.contains(keys@[t]),
            decreases keys@.len() - i,
        {
            let k = keys[i];
            assert(keys@.to_set().contains(k));
            match entry_map_get(&self.cache, &k) {
                Some(e) => {
                    let idle = now.saturating_sub(e.last_accessed);
                    let remove = idle > max_age_ms && match e.state {
                        LoadState::Failed(_) => true,
                        LoadState::Pending => true,
                        LoadState::Loading => match loading_map_get(&self.loading, &k) {
                            None => true,
                            Some(start) => now.saturating_sub(start) > STALE_LOADING_MS,
                        },
                        LoadState::Loaded(_) => false,
                    };
                    if remove {
                        let ghost before = to_remove@;
                        to_remove.push(k);
                        proof {
                            assert forall|t: int| 0 <= t < i + 1 && stale.contains(#[trigger] keys@[t]) implies to_remove@.contains(keys@[t]) by {
                                if t < i {
                                    let u = choose|u: int| 0 <= u < before.len() && before[u] == keys@[t];
                                    assert(to_remove@[u] == keys@[t]);
                                } else {
                                    assert(to_remove@[before.len() as int] == k);
                                }
                            }
                        }
                    }
                },
                None => {},
            }
            i += 1;
        }
        proof {
            assert forall|k: RequestKey| stale.contains(k) implies to_remove@.contains(k) by {
                assert(keys@.to_set().contains(k));
                let t = choose|t: int| 0 <= t < keys@.len() && keys@[t] == k;
            }
        }
        proof {
            assert(to_remove@.take(0).to_set() =~= Set::<RequestKey>::empty());
            assert(m.entries.remove_keys(Set::<RequestKey>::empty()) =~= m.entries);
            assert(m.loading.remove_keys(Set::<RequestKey>::empty()) =~= m.loading);
        }
        let mut j: usize = 0;
        while j < to_remove.len()
            invariant
                self.wf(),
                j <= to_remove@.len(),
                stale == Set::new(|k: RequestKey| m.entries.contains_key(k) && is_stale(m, k, max_age_ms, now)),
                forall|t: int| 0 <= t < to_remove@.len() ==> #[trigger] stale.contains(to_remove@[t]),
                self@ == (CacheModel {
                    entries: m.entries.remove_keys(to_remove@.take(j as int).to_set()),
                    loading: m.loading.remove_keys(to_remove@.take(j as int).to_set()),
                    ..m
                }),
            decreases to_remove@.len() - j,
        {
            let k = to_remove[j];
            let ghost sofar = to_remove@.take(j as int);
            let ghost next = to_remove@.take(j + 1);
            proof {
                assert forall|x: RequestKey| next.contains(x) <==> (sofar.contains(x) || x == k) by {
                    if next.contains(x) {
                        let t = choose|t: int| 0 <= t < next.len() && next[t] == x;
                        if t < sofar.len() {
                            assert(sofar[t] == x);
                        }
                    }
                    if sofar.contains(x) {
                        let t = choose|t: int| 0 <= t < sofar.len() && sofar[t] == x;
                        assert(next[t] == x);
                    }
                    if x == k {
                        assert(next[j as int] == k);
                    }
                }
                assert(next.to_set() =~= sofar.to_set().insert(k));
                assert(stale.contains(k));
                if self@.entries.contains_key(k) {
                    assert(!(self@.entries[k].state is Loaded));
                }
            }
            let _ = self.remove_entry_and_account(&k);
            loading_map_remove(&mut self.loading, &k);
            proof {
                assert(self@.entries =~= m.entries.remove_keys(next.to_set()));
                assert(self@.loading =~= m.loading.remove_keys(next.to_set()));
            }
            j += 1;
        }
        proof {
            assert(to_remove@.take(to_remove@.len() as int) == to_remove@);
            assert(to_remove@.to_set() =~= stale);
            assert(self@.entries =~= m.entries.remove_keys(stale));
            assert(self@.loading =~= m.loading.remove_keys(stale));
        }
        self.enforce_ram_budget();
    }

    /// A read-only picture of what is loaded, loading and queued; raises the
    /// telemetry high-water marks.
    pub fn snapshot_state(&mut self) -> (snap: ServiceStateSnapshot)
        requires
            old(self).wf(),
        ensures
            final(self).wf(),
            ({
                let m = old(self)@;
                &&& keys_of(snap.loaded@).no_duplicates()
                &&& keys_of(snap.loaded@).to_set() == Set::new(|k: RequestKey| m.entries.contains_key(k) && m.entries[k].state is Loaded)
                &&& forall|i: int| 0 <= i < snap.loaded@.len() ==> #[trigger] snap.loaded@[i] == request_of_key(keys_of(snap.loaded@)[i], Priority::Visible)
                &&& keys_of(snap.loading@).no_duplicates()
                &&& keys_of(snap.loading@).to_set() == m.loading.dom()
                &&& forall|i: int| 0 <= i < snap.loading@.len() ==> #[trigger] snap.loading@[i] == request_of_key(keys_of(snap.loading@)[i], Priority::Visible)
                &&& keys_of(snap.queued@).no_duplicates()
                &&& keys_of(snap.queued@).to_set() == m.queue.dom()
                &&& forall|i: int| 0 <= i < snap.queued@.len() ==> #[trigger] snap.queued@[i] == request_of_key(keys_of(snap.queued@)[i], priority_of_weight(m.queue[keys_of(snap.queued@)[i]]))
                &&& snap.in_flight == m.loading.dom().len()
                &&& snap.queue_depth == m.queue.dom().len()
                &&& final(self)@ == snapshot_model(m)
            }),
    {
        let ghost m = self@;
        let ekeys = entry_map_keys(&self.cache);
        let mut loaded: Vec<ImageRequest> = Vec::new();
        let mut i: usize = 0;
        while i < ekeys.len()
            invariant
                self@ == m,
                self.wf(),
                i <= ekeys@.len(),
                ekeys@.to_set() == m.entries.dom(),
                ekeys@.no_duplicates(),
                keys_of(loaded@).no_duplicates(),
                forall|t: int| 0 <= t < loaded@.len() ==> #[trigger] loaded@[t] == request_of_key(keys_of(loaded@)[t], Priority::Visible),
                forall|t: int| 0 <= t < loaded@.len() ==> {
                    let k = #[trigger] keys_of(loaded@)[t];
                    m.entries.contains_key(k) && m.entries[k].state is Loaded && exists|u: int| 0 <= u < i && ekeys@[u] == k
                },
                forall|u: int| 0 <= u < i && m.entries[#[trigger] ekeys@[u]].state is Loaded ==> keys_of(loaded@).contains(ekeys@[u]),
            decreases ekeys@.len() - i,
        {
            let k = ekeys[i];
            assert(ekeys@.to_set().contains(k));
            match entry_map_get(&self.cache, &k) {
                Some(e) => {
                    if matches!(e.state, LoadState::Loaded(_)) {
                        let ghost before = loaded@;
                        loaded.push(request_from_key(k, 3));
                        proof {
                            assert(keys_of(loaded@) == keys_of(before).push(k));
                            assert forall|t: int| 0 <= t < loaded@.len() implies #[trigger] loaded@[t] == request_of_key(keys_of(loaded@)[t], Priority::Visible) by {
                                if t < before.len() {
                                    assert(loaded@[t] == before[t]);
                                }
                            }
                            assert forall|t: int| 0 <= t < loaded@.len() implies {
                                let k2 = #[trigger] keys_of(loaded@)[t];
                                m.entries.contains_key(k2) && m.entries[k2].state is Loaded && exists|u: int| 0 <= u < i + 1 && ekeys@[u] == k2
                            } by {
                                if t < before.len() {
                                    assert(keys_of(loaded@)[t] == keys_of(before)[t]);
                                } else {
                                    assert(ekeys@[i as int] == k);
                                }
                            }
                            assert(keys_of(loaded@).no_duplicates()) by {
                                assert forall|a: int, b: int| 0 <= a < loaded@.len() && 0 <= b < loaded@.len() && a != b implies keys_of(loaded@)[a] != keys_of(loaded@)[b] by {
                                    if a < before.len() && b < before.len() {
                                        assert(keys_of(loaded@)[a] == keys_of(before)[a]);
                                        assert(keys_of(loaded@)[b] == keys_of(before)[b]);
                                    } else if a < before.len() {
                                        assert(keys_of(loaded@)[a] == keys_of(before)[a]);
                                        let u = choose|u: int| 0 <= u < i && ekeys@[u] == keys_of(before)[a];
                                    } else if b < before.len() {
                                        assert(keys_of(loaded@)[b] == keys_of(before)[b]);
                                        let u = choose|u: int| 0 <= u < i && ekeys@[u] == keys_of(before)[b];
                                    }
                                }
                            }
                            assert forall|u: int| 0 <= u < i + 1 && m.entries[#[trigger] ekeys@[u]].state is Loaded implies keys_of(loaded@).contains(ekeys@[u]) by {
                                if u < i {
                                    let t = choose|t: int| 0 <= t < keys_of(before).len() && keys_of(before)[t] == ekeys@[u];
                                    assert(keys_of(loaded@)[t] == ekeys@[u]);
                                } else {
                                    assert(keys_of(loaded@)[before.len() as int] == k);
                                }
                            }
                        }
                    }
                },
                None => {},
            }
            i += 1;
        }
        proof {
            assert(keys_of(loaded@).to_set() =~= Set::new(|k: RequestKey| m.entries.contains_key(k) && m.entries[k].state is Loaded)) by {
                assert forall|k: RequestKey| m.entries.contains_key(k) && m.entries[k].state is Loaded implies keys_of(loaded@).contains(k) by {
                    assert(ekeys@.to_set().contains(k));
                    let u = choose|u: int| 0 <= u < ekeys@.len() && ekeys@[u] == k;
                }
                assert forall|k: RequestKey| keys_of(loaded@).contains(k) implies m.entries.contains_key(k) && m.entries[k].state is Loaded by {
                    let t = choose|t: int| 0 <= t < keys_of(loaded@).len() && keys_of(loaded@)[t] == k;
                }
            }
        }
        let lkeys = loading_map_keys(&self.loading);
        let mut loading: Vec<ImageRequest> = Vec::new();
        let mut i: usize = 0;
        while i < lkeys.len()
            invariant
                self@ == m,
                self.wf(),
                i <= lkeys@.len(),
                lkeys@.to_set() == m.loading.dom(),
                keys_of(loading@) == lkeys@.take(i as int),
                forall|t: int| 0 <= t < loading@.len() ==> #[trigger] loading@[t] == request_of_key(keys_of(loading@)[t], Priority::Visible),
            decreases lkeys@.len() - i,
        {
            let k = lkeys[i];
            assert(lkeys@.to_set().contains(k));
            let ghost before = loading@;
            loading.push(request_from_key(k, 3));
            proof {
                assert(keys_of(loading@) == keys_of(before).push(k));
                assert(lkeys@.take(i + 1) == lkeys@.take(i as int).push(k));
                assert forall|t: int| 0 <= t < loading@.len() implies #[trigger] loading@[t] == request_of_key(keys_of(loading@)[t], Priority::Visible) by {
                    if t < before.len() {
                        assert(loading@[t] == before[t]);
                    }
                }
            }
            i += 1;
        }
        assert(lkeys@.take(lkeys@.len() as int) == lkeys@);
        let items = queue_items(&self.queue);
        let mut queued: Vec<ImageRequest> = Vec::new();
        let mut i: usize = 0;
        while i < items.len()
            invariant
                self@ == m,
                self.wf(),
                i <= items@.len(),
                pair_keys_u8(items@).to_set() == m.queue.dom(),
                forall|t: int| 0 <= t < items@.len() ==> m.queue[#[trigger] items@[t].0] == items@[t].1,
                keys_of(queued@) == pair_keys_u8(items@).take(i as int),
                forall|t: int| 0 <= t < queued@.len() ==> #[trigger] queued@[t] == request_of_key(keys_of(queued@)[t], priority_of_weight(m.queue[keys_of(queued@)[t]])),
            decreases items@.len() - i,
        {
            let (k, p) = items[i];
            assert(pair_keys_u8(items@)[i as int] == k);
            assert(pair_keys_u8(items@).to_set().contains(k));
            let ghost before = queued@;
            queued.push(request_from_key(k, p));
            proof {
                assert(keys_of(queued@) == keys_of(before).push(k));
                assert(pair_keys_u8(items@).take(i + 1) == pair_keys_u8(items@).take(i as int).push(k));
                assert forall|t: int| 0 <= t < queued@.len() implies #[trigger] queued@[t] == request_of_key(keys_of(queued@)[t], priority_of_weight(m.queue[keys_of(queued@)[t]])) by {
                    if t < before.len() {
                        assert(queued@[t] == before[t]);
                    }
                }
            }
            i += 1;
        }
        assert(pair_keys_u8(items@).take(items@.len() as int) == pair_keys_u8(items@));
        let in_flight = loading_map_len(&self.loading);
        let queue_depth = queue_len(&self.queue);
        let _ = self.telemetry.record_state(in_flight, queue_depth);
        ServiceStateSnapshot { loaded, loading, queued, in_flight, queue_depth }
    }

    /// Tune load concurrency from the median load latency (once eight samples
    /// exist): halve it while the queue is backed up, grow it while loads are
    /// fast, shrink it while they are slow, within 8..=128.
    pub fn adapt_concurrency(&mut self)
        requires
            old(self).wf(),
        ensures
            final(self).wf(),
            ({
                let m = old(self)@;
                final(self)@ == if m.telemetry.load_ms.len() < MIN_MEDIAN_SAMPLES {
                    m
                } else {
                    CacheModel {
                        max_concurrent: adapted_concurrency(median_of(m.telemetry.load_ms), m.queue.dom().len(), m.max_concurrent),
                        ..m
                    }
                }
            }),
    {
        let median_ms = match self.telemetry.median_load_ms() {
            Some(v) => v,
            None => return,
        };
        let current = self.max_concurrent;
        let queue_depth = queue_len(&self.queue);
        if queue_depth > QUEUE_BACKUP_DEPTH && current > MIN_CONCURRENT {
            let half = current / 2;
            let reduced = if half > MIN_CONCURRENT { half } else { MIN_CONCURRENT };
            self.max_concurrent = reduced;
            return;
        }
        let new_concurrent = if median_ms < TARGET_LOW_MS {
            let step: usize = if median_ms < TARGET_LOW_MS / 2 { 2 } else { 1 };
            let raised = if current < MAX_CONCURRENT { current + step } else { MAX_CONCURRENT };
            if raised < MAX_CONCURRENT { raised } else { MAX_CONCURRENT }
        } else if median_ms > TARGET_HIGH_MS {
            let step: usize = if median_ms > TARGET_HIGH_MS * 2 { 2 } else { 1 };
            let lowered = current.saturating_sub(step);
            if lowered > MIN_CONCURRENT { lowered } else { MIN_CONCURRENT }
        } else {
            current
        };
        if new_concurrent != current {
            self.max_concurrent = new_concurrent;
        }
    }
}

} // verus!
