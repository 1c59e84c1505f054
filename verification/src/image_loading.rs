//! The image loader's decisions: which queued requests to start when the
//! pool has room, and whether a fetched body looks like an image it can
//! decode.
use vstd::prelude::*;
use crate::image_types::{ImageRequest, RequestKey, request_key};
use crate::image_cache::{
    UnifiedImageService, CacheModel, is_candidate, is_stale, keys_of, budget_enforced, loading_entry, next_choice,
    after_choice,
};
use crate::image_types::{request_of_key, priority_of_weight};

verus! {

/// Whether `b` starts with the signature of a JPEG, PNG, WebP or AVIF file.
pub open spec fn supported_image_header(b: Seq<u8>) -> bool {
    ||| (b.len() >= 3 && b[0] == 0xFF && b[1] == 0xD8 && b[2] == 0xFF)
    ||| (b.len() >= 8 && b[0] == 0x89 && b[1] == 0x50 && b[2] == 0x4E && b[3] == 0x47
        && b[4] == 0x0D && b[5] == 0x0A && b[6] == 0x1A && b[7] == 0x0A)
    ||| (b.len() >= 12 && b[0] == 0x52 && b[1] == 0x49 && b[2] == 0x46 && b[3] == 0x46
        && b[8] == 0x57 && b[9] == 0x45 && b[10] == 0x42 && b[11] == 0x50)
    ||| (b.len() >= 12 && b[4] == 0x66 && b[5] == 0x74 && b[6] == 0x79 && b[7] == 0x70
        && b[8] == 0x61 && b[9] == 0x76 && b[10] == 0x69 && (b[11] == 0x66 || b[11] == 0x73))
}

/// Quick header sniff: reject bodies that do not look like a JPEG ("FF D8
/// FF"), PNG, WebP ("RIFF....WEBP") or AVIF ("....ftypavif" or "avis").
pub fn looks_like_supported_image(b: &[u8]) -> (r: bool)
    ensures
        r == supported_image_header(b@),
{
    let n = b.len();
    if n >= 3 && b[0] == 0xFF && b[1] == 0xD8 && b[2] == 0xFF {
        return true;
    }
    if n >= 8 && b[0] == 0x89 && b[1] == 0x50 && b[2] == 0x4E && b[3] == 0x47 && b[4] == 0x0D && b[5] == 0x0A
        && b[6] == 0x1A && b[7] == 0x0A {
        return true;
    }
    if n >= 12 && b[0] == 0x52 && b[1] == 0x49 && b[2] == 0x46 && b[3] == 0x46 && b[8] == 0x57 && b[9] == 0x45
        && b[10] == 0x42 && b[11] == 0x50 {
        return true;
    }
    if n >= 12 && b[4] == 0x66 && b[5] == 0x74 && b[6] == 0x79 && b[7] == 0x70 && b[8] == 0x61 && b[9] == 0x76
        && b[10] == 0x69 && (b[11] == 0x66 || b[11] == 0x73) {
        return true;
    }
    false
}

/// What became of a fetched image body.
#[derive(Debug, Clone, Copy, PartialEq, Eq, Structural)]
pub enum BodyVerdict {
    /// Usable: hand it to the decoder (and the disk cache).
    Image,
    /// The server answered with no bytes.
    Empty,
    /// The bytes do not look like a supported image.
    Unsupported,
}

/// Judge a fetched body: empty, not an image, or an image.
pub fn check_image_body(b: &[u8]) -> (v: BodyVerdict)
    ensures
        v == if b@.len() == 0 {
            BodyVerdict::Empty
        } else if !supported_image_header(b@) {
            BodyVerdict::Unsupported
        } else {
            BodyVerdict::Image
        },
{
    if b.len() == 0 {
        BodyVerdict::Empty
    } else if !looks_like_supported_image(b) {
        BodyVerdict::Unsupported
    } else {
        BodyVerdict::Image
    }
}

/// The cache after the loader started request `q`, chosen with the
/// scheduling counter left at `c`: it leaves the queue and is loading from `now`.
pub open spec fn start_step(m: CacheModel, q: ImageRequest, c: usize, now: u64) -> CacheModel {
    let k = request_key(q);
    CacheModel {
        loading: m.loading.insert(k, now),
        entries: m.entries.insert(k, loading_entry(m.entries.get(k), now)),
        ..after_choice(m, Some(q), c)
    }
}

/// The cache after starting `started` in order from `m`, the counter left
/// at `cs[i]` by the `i`-th choice.
pub open spec fn run_of(m: CacheModel, started: Seq<ImageRequest>, cs: Seq<usize>, now: u64) -> CacheModel
    decreases started.len(),
{
    if started.len() == 0 || cs.len() != started.len() {
        m
    } else {
        start_step(run_of(m, started.drop_last(), cs.drop_last(), now), started.last(), cs.last(), now)
    }
}

/// Whether each request of `started` is the choice `get_next_request` may
/// make in the cache left by starting the ones before it.
pub open spec fn picks_valid(m: CacheModel, started: Seq<ImageRequest>, cs: Seq<usize>, now: u64) -> bool {
    &&& cs.len() == started.len()
    &&& forall|i: int| 0 <= i < started.len()
        ==> next_choice(run_of(m, started.take(i), cs.take(i), now), Some(#[trigger] started[i]), cs[i])
}

proof fn lemma_picks_step(m: CacheModel, started: Seq<ImageRequest>, cs: Seq<usize>, r: ImageRequest, c: usize, now: u64)
    requires
        picks_valid(m, started, cs, now),
        next_choice(run_of(m, started, cs, now), Some(r), c),
    ensures
        picks_valid(m, started.push(r), cs.push(c), now),
        run_of(m, started.push(r), cs.push(c), now) == start_step(run_of(m, started, cs, now), r, c, now),
{
    let s2 = started.push(r);
    let c2 = cs.push(c);
    assert(s2.drop_last() == started);
    assert(c2.drop_last() == cs);
    assert forall|i: int| 0 <= i < s2.len()
        implies next_choice(run_of(m, s2.take(i), c2.take(i), now), Some(#[trigger] s2[i]), c2[i]) by {
        if i < started.len() {
            assert(s2.take(i) == started.take(i));
            assert(c2.take(i) == cs.take(i));
            assert(s2[i] == started[i]);
        } else {
            assert(s2.take(i) == started);
            assert(c2.take(i) == cs);
        }
    }
}

/// Take the next request from the service (as `get_next_request` chooses
/// it) and mark it loading at `now`.
fn start_one(service: &mut UnifiedImageService, now: u64) -> (r: Option<ImageRequest>)
    requires
        old(service).wf(),
    ensures
        final(service).wf(),
        next_choice(old(service)@, r, final(service)@.retry_slot_counter),
        final(service)@ == match r {
            None => after_choice(old(service)@, None, final(service)@.retry_slot_counter),
            Some(q) => start_step(old(service)@, q, final(service)@.retry_slot_counter, now),
        },
        match r {
            None => old(service)@.loading.dom().len() >= old(service)@.max_concurrent
                || forall|k: RequestKey| !is_candidate(old(service)@, k),
            Some(q) => is_candidate(old(service)@, request_key(q))
                && q == request_of_key(request_key(q), priority_of_weight(old(service)@.queue[request_key(q)])),
        },
{
    let r = service.get_next_request();
    proof {
        reveal(next_choice);
    }
    match r {
        None => None,
        Some(r) => {
            service.mark_loading(&r, now);
            Some(r)
        },
    }
}

proof fn lemma_started_step(m0: CacheModel, before: CacheModel, after: CacheModel,
    old_started: Seq<ImageRequest>, started: Seq<ImageRequest>, r: ImageRequest, now: u64)
    requires
        started == old_started.push(r),
        keys_of(old_started).no_duplicates(),
        forall|i: int| 0 <= i < old_started.len() ==> #[trigger] before.loading.contains_key(request_key(old_started[i]))
            && before.loading[request_key(old_started[i])] == now
            && !before.queue.contains_key(request_key(old_started[i])),
        forall|i: int| 0 <= i < old_started.len() ==> #[trigger] is_candidate(m0, request_key(old_started[i])),
        forall|i: int| 0 <= i < old_started.len() ==> #[trigger] old_started[i] == request_of_key(request_key(old_started[i]),
            priority_of_weight(m0.queue[request_key(old_started[i])])),
        before.queue == m0.queue.remove_keys(keys_of(old_started).to_set()),
        before.loading.dom() == m0.loading.dom() + keys_of(old_started).to_set(),
        is_candidate(before, request_key(r)),
        r == request_of_key(request_key(r), priority_of_weight(before.queue[request_key(r)])),
        after.queue == before.queue.remove(request_key(r)),
        after.loading == before.loading.insert(request_key(r), now),
    ensures
        keys_of(started).no_duplicates(),
        forall|i: int| 0 <= i < started.len() ==> #[trigger] after.loading.contains_key(request_key(started[i]))
            && after.loading[request_key(started[i])] == now
            && !after.queue.contains_key(request_key(started[i])),
        forall|i: int| 0 <= i < started.len() ==> #[trigger] is_candidate(m0, request_key(started[i])),
        forall|i: int| 0 <= i < started.len() ==> #[trigger] started[i] == request_of_key(request_key(started[i]),
            priority_of_weight(m0.queue[request_key(started[i])])),
        after.queue == m0.queue.remove_keys(keys_of(started).to_set()),
        after.loading.dom() == m0.loading.dom() + keys_of(started).to_set(),
{
    let k = request_key(r);
    assert(keys_of(started) =~= keys_of(old_started).push(k));
    assert forall|i: int| 0 <= i < old_started.len() implies request_key(#[trigger] old_started[i]) != k by {
        assert(before.loading.contains_key(request_key(old_started[i])));
    }
    assert forall|a: int, b: int| 0 <= a < b < keys_of(started).len() implies keys_of(started)[a] != keys_of(started)[b] by {
        if b == old_started.len() {
            assert(keys_of(started)[a] == request_key(old_started[a]));
        } else {
            assert(keys_of(started)[a] == keys_of(old_started)[a]);
            assert(keys_of(started)[b] == keys_of(old_started)[b]);
        }
    }
    assert forall|i: int| 0 <= i < started.len() implies #[trigger] after.loading.contains_key(request_key(started[i]))
        && after.loading[request_key(started[i])] == now
        && !after.queue.contains_key(request_key(started[i])) by {
        if i < old_started.len() {
            assert(started[i] == old_started[i]);
        }
    }
    assert forall|x: RequestKey| #[trigger] keys_of(started).contains(x) <==> (keys_of(old_started).contains(x) || x == k) by {
        if keys_of(started).contains(x) {
            let t = choose|t: int| 0 <= t < keys_of(started).len() && keys_of(started)[t] == x;
            if t < old_started.len() {
                assert(keys_of(old_started)[t] == x);
            }
        }
        if keys_of(old_started).contains(x) {
            let t = choose|t: int| 0 <= t < keys_of(old_started).len() && keys_of(old_started)[t] == x;
            assert(keys_of(started)[t] == x);
        }
        if x == k {
            assert(keys_of(started)[old_started.len() as int] == k);
        }
    }
    assert(keys_of(started).to_set() =~= keys_of(old_started).to_set().insert(k));
    assert(m0.queue.contains_key(k) && m0.queue[k] == before.queue[k]);
    assert(!m0.loading.contains_key(k));
    assert forall|i: int| 0 <= i < started.len() implies #[trigger] is_candidate(m0, request_key(started[i])) by {
        if i < old_started.len() {
            assert(started[i] == old_started[i]);
        } else {
            assert(started[i] == r);
        }
    }
    assert forall|i: int| 0 <= i < started.len() implies #[trigger] started[i] == request_of_key(request_key(started[i]),
            priority_of_weight(m0.queue[request_key(started[i])])) by {
        if i < old_started.len() {
            assert(started[i] == old_started[i]);
        } else {
            assert(started[i] == r);
        }
    }
    assert(after.queue =~= m0.queue.remove_keys(keys_of(started).to_set()));
    assert(after.loading.dom() =~= m0.loading.dom() + keys_of(started).to_set());
}

/// Fill the loader's pool: while fewer than the service's concurrency limit
/// are in flight, take the next request from the service and mark it
/// loading at `now`. Returns the started requests, in order.
pub fn start_loads(service: &mut UnifiedImageService, in_flight: usize, now: u64) -> (started: Vec<ImageRequest>)
    requires
        old(service).wf(),
    ensures
        final(service).wf(),
        final(service)@.max_concurrent == old(service)@.max_concurrent,
        in_flight + started@.len() <= old(service)@.max_concurrent || started@.len() == 0,
        keys_of(started@).no_duplicates(),
        forall|i: int| 0 <= i < started@.len() ==> #[trigger] final(service)@.loading.contains_key(request_key(started@[i]))
            && final(service)@.loading[request_key(started@[i])] == now
            && !final(service)@.queue.contains_key(request_key(started@[i])),
        in_flight + started@.len() >= old(service)@.max_concurrent
            || final(service)@.loading.dom().len() >= final(service)@.max_concurrent
            || forall|k: RequestKey| !is_candidate(final(service)@, k),
        forall|i: int| 0 <= i < started@.len() ==> #[trigger] is_candidate(old(service)@, request_key(started@[i])),
        forall|i: int| 0 <= i < started@.len() ==> #[trigger] started@[i] == request_of_key(request_key(started@[i]),
            priority_of_weight(old(service)@.queue[request_key(started@[i])])),
        final(service)@.queue == old(service)@.queue.remove_keys(keys_of(started@).to_set()),
        final(service)@.loading.dom() == old(service)@.loading.dom() + keys_of(started@).to_set(),
        exists|cs: Seq<usize>| #![trigger picks_valid(old(service)@, started@, cs, now)]
            picks_valid(old(service)@, started@, cs, now)
            && final(service)@ == (CacheModel {
                retry_slot_counter: final(service)@.retry_slot_counter,
                ..run_of(old(service)@, started@, cs, now)
            }),
{
    let mut started: Vec<ImageRequest> = Vec::new();
    let max = service.max_concurrent();
    let ghost m0 = service@;
    if in_flight >= max {
        proof {
            assert(keys_of(started@).to_set() =~= Set::empty());
            assert(service@.queue =~= m0.queue.remove_keys(Set::empty()));
            assert(service@.loading.dom() =~= m0.loading.dom() + Set::empty());
            assert(picks_valid(m0, started@, Seq::<usize>::empty(), now));
            assert(service@ == run_of(m0, started@, Seq::<usize>::empty(), now));
        }
        return started;
    }
    proof {
        assert(keys_of(started@).to_set() =~= Set::empty());
        assert(service@.queue =~= m0.queue.remove_keys(Set::empty()));
    }
    let ghost mut cs: Seq<usize> = Seq::empty();
    proof {
        assert(picks_valid(m0, started@, cs, now));
        assert(service@ == run_of(m0, started@, cs, now));
    }
    let mut exhausted = false;
    while !exhausted && in_flight + started.len() < max
        invariant
            picks_valid(m0, started@, cs, now),
            !exhausted ==> service@ == run_of(m0, started@, cs, now),
            exhausted ==> service@ == (CacheModel {
                retry_slot_counter: service@.retry_slot_counter,
                ..run_of(m0, started@, cs, now)
            }),
            service.wf(),
            max == m0.max_concurrent,
            service@.max_concurrent == max,
            in_flight + started@.len() <= max,
            keys_of(started@).no_duplicates(),
            forall|i: int| 0 <= i < started@.len() ==> #[trigger] service@.loading.contains_key(request_key(started@[i]))
                && service@.loading[request_key(started@[i])] == now
                && !service@.queue.contains_key(request_key(started@[i])),
            exhausted ==> (service@.loading.dom().len() >= service@.max_concurrent
                || forall|k: RequestKey| !is_candidate(service@, k)),
            forall|i: int| 0 <= i < started@.len() ==> #[trigger] is_candidate(m0, request_key(started@[i])),
            forall|i: int| 0 <= i < started@.len() ==> #[trigger] started@[i] == request_of_key(request_key(started@[i]),
                priority_of_weight(m0.queue[request_key(started@[i])])),
            service@.queue == m0.queue.remove_keys(keys_of(started@).to_set()),
            service@.loading.dom() == m0.loading.dom() + keys_of(started@).to_set(),
        decreases max - started@.len(), if exhausted { 0int } else { 1int },
    {
        let ghost before = service@;
        match start_one(service, now) {
            None => {
                exhausted = true;
                proof {
                    assert(service@.loading == before.loading);
                    assert(service@.queue == before.queue);
                    assert forall|k: RequestKey| #[trigger] is_candidate(service@, k) == is_candidate(before, k) by {}
                    assert forall|i: int| 0 <= i < started@.len() implies #[trigger] service@.loading.contains_key(request_key(started@[i]))
                        && service@.loading[request_key(started@[i])] == now
                        && !service@.queue.contains_key(request_key(started@[i])) by {
                        assert(before.loading.contains_key(request_key(started@[i])));
                    }
                    assert(service@ == (CacheModel {
                        retry_slot_counter: service@.retry_slot_counter,
                        ..run_of(m0, started@, cs, now)
                    }));
                }
            },
            Some(r) => {
                let ghost k = request_key(r);
                let ghost old_started = started@;
                let ghost old_cs = cs;
                started.push(r);
                proof {
                    lemma_started_step(m0, before, service@, old_started, started@, r, now);
                    cs = old_cs.push(service@.retry_slot_counter);
                    lemma_picks_step(m0, old_started, old_cs, r, service@.retry_slot_counter, now);
                }
            },
        }
    }
    proof {
        assert(picks_valid(m0, started@, cs, now));
    }
    started
}


/// How the fetch of one started request begins.
#[derive(Debug, Clone, PartialEq, Eq)]
pub enum FetchStart {
    /// The disk cache holds the image: use those bytes.
    FromDiskCache,
    /// The load fails at once with this message.
    Fail(String),
    /// Ask the server for the image.
    FromServer,
}

/// The first step of fetching a started request: a disk-cache hit is used
/// as is; otherwise, with no server URL the load fails with "Server URL is
/// empty"; otherwise the image is requested from the server.
pub fn fetch_start(disk_hit: bool, server_url: &str) -> (r: FetchStart)
    ensures
        disk_hit ==> r == FetchStart::FromDiskCache,
        !disk_hit && server_url@.len() == 0 ==> (r matches FetchStart::Fail(m) && m@ == "Server URL is empty"@),
        !disk_hit && server_url@.len() > 0 ==> r == FetchStart::FromServer,
{
    if disk_hit {
        FetchStart::FromDiskCache
    } else if server_url.unicode_len() == 0 {
        FetchStart::Fail(crate::text::owned("Server URL is empty"))
    } else {
        FetchStart::FromServer
    }
}

/// Time between cache cleanups, in milliseconds (five minutes).
pub const CLEANUP_INTERVAL_MS: u64 = 300_000;

/// Age after which an idle failed, pending or abandoned entry is dropped
/// (thirty minutes).
pub const STALE_ENTRY_AGE_MS: u64 = 1_800_000;

/// The disk cache is cleaned every this many cleanup ticks (an hour).
pub const DISK_CLEANUP_EVERY_TICKS: u32 = 12;

/// One periodic cleanup at `now`: drop stale in-memory entries (then enforce
/// the RAM budget). Returns whether the disk cache is due for cleanup on
/// this tick (every twelfth, starting with the first) and the next tick count.
pub fn cleanup_tick(service: &mut UnifiedImageService, ticks: u32, now: u64) -> (r: (bool, u32))
    requires
        old(service).wf(),
    ensures
        final(service).wf(),
        ({
            let m = old(service)@;
            let stale = Set::new(|k: RequestKey| m.entries.contains_key(k) && is_stale(m, k, STALE_ENTRY_AGE_MS, now));
            budget_enforced(CacheModel {
                entries: m.entries.remove_keys(stale),
                loading: m.loading.remove_keys(stale),
                ..m
            }, final(service)@)
        }),
        r.0 == (ticks % DISK_CLEANUP_EVERY_TICKS == 0),
        r.1 == (if ticks == u32::MAX { 0 } else { ticks + 1 }),
{
    service.cleanup_stale_entries(STALE_ENTRY_AGE_MS, now);
    (ticks % DISK_CLEANUP_EVERY_TICKS == 0, ticks.wrapping_add(1))
}

} // verus!
