//! Trusted declarations of the concurrent map and the priority queue that
//! back the image cache, with contracts for the operations the cache uses.
use vstd::prelude::*;
use dashmap::DashMap;
use priority_queue::PriorityQueue;
use crate::image_types::RequestKey;
use crate::image_cache::ImageEntry;

verus! {

/// Cache entries by request key.
pub type EntryMap = DashMap<RequestKey, ImageEntry>;
/// Ready blob tokens by request key.
pub type TokenMap = DashMap<RequestKey, String>;
/// Loading start times by request key.
pub type LoadingMap = DashMap<RequestKey, u64>;
/// Queued requests with their priority weights.
pub type RequestQueue = PriorityQueue<RequestKey, u8>;

#[verifier::external_type_specification]
#[verifier::external_body]
#[verifier::reject_recursive_types(K)]
#[verifier::reject_recursive_types(V)]
#[verifier::reject_recursive_types(S)]
pub struct ExDashMap<K, V, S>(DashMap<K, V, S>);

#[verifier::external_type_specification]
#[verifier::external_body]
#[verifier::reject_recursive_types(I)]
#[verifier::reject_recursive_types(P)]
#[verifier::reject_recursive_types(H)]
pub struct ExPriorityQueue<I, P, H>(PriorityQueue<I, P, H>);

/// What a cache map holds: request key to cache entry.
pub uninterp spec fn entry_map_contents(m: EntryMap) -> Map<RequestKey, ImageEntry>;

/// What a token map holds: request key to ready blob token.
pub uninterp spec fn token_map_contents(m: TokenMap) -> Map<RequestKey, String>;

/// What a loading map holds: request key to the time loading started.
pub uninterp spec fn loading_map_contents(m: LoadingMap) -> Map<RequestKey, u64>;

/// What a request queue holds: request key to its priority weight.
pub uninterp spec fn queue_contents(q: RequestQueue) -> Map<RequestKey, u8>;

// ---- cache map: EntryMap ----

/// `DashMap::new`: an empty map.
#[verifier::external_body]
pub(crate) fn entry_map_new() -> (m: EntryMap)
    ensures
        entry_map_contents(m).dom() == Set::<RequestKey>::empty(),
{
    DashMap::new()
}

/// `DashMap::get` followed by a clone of the value: the value stored under `k`, if any.
#[verifier::external_body]
pub(crate) fn entry_map_get(m: &EntryMap, k: &RequestKey) -> (r: Option<ImageEntry>)
    ensures
        r == (if entry_map_contents(*m).contains_key(*k) {
            Some(entry_map_contents(*m)[*k])
        } else {
            None
        }),
{
    m.get(k).map(|e| e.value().clone())
}

/// `DashMap::insert`: stores `v` under `k`, replacing any old value.
#[verifier::external_body]
pub(crate) fn entry_map_insert(m: &mut EntryMap, k: RequestKey, v: ImageEntry)
    ensures
        entry_map_contents(*final(m)) == entry_map_contents(*old(m)).insert(k, v),
{
    m.insert(k, v);
}

/// `DashMap::remove`: takes the value stored under `k` out of the map.
#[verifier::external_body]
pub(crate) fn entry_map_remove(m: &mut EntryMap, k: &RequestKey) -> (r: Option<ImageEntry>)
    ensures
        entry_map_contents(*final(m)) == entry_map_contents(*old(m)).remove(*k),
        r == (if entry_map_contents(*old(m)).contains_key(*k) {
            Some(entry_map_contents(*old(m))[*k])
        } else {
            None
        }),
{
    m.remove(k).map(|(_, v)| v)
}

/// `DashMap::iter`, keeping the keys: every key once, in an order the map chooses.
#[verifier::external_body]
pub(crate) fn entry_map_keys(m: &EntryMap) -> (r: Vec<RequestKey>)
    ensures
        r@.no_duplicates(),
        r@.to_set() == entry_map_contents(*m).dom(),
{
    m.iter().map(|e| *e.key()).collect()
}

/// `DashMap::shrink_to_fit`: releases spare capacity; the contents stay.
#[verifier::external_body]
pub(crate) fn entry_map_shrink(m: &mut EntryMap)
    ensures
        entry_map_contents(*final(m)) == entry_map_contents(*old(m)),
{
    m.shrink_to_fit();
}

// ---- token map: TokenMap ----

/// `DashMap::new`: an empty map.
#[verifier::external_body]
pub(crate) fn token_map_new() -> (m: TokenMap)
    ensures
        token_map_contents(m).dom() == Set::<RequestKey>::empty(),
{
    DashMap::new()
}

/// `DashMap::get` followed by a clone of the value: the token stored under `k`, if any.
#[verifier::external_body]
pub(crate) fn token_map_get(m: &TokenMap, k: &RequestKey) -> (r: Option<String>)
    ensures
        r == (if token_map_contents(*m).contains_key(*k) {
            Some(token_map_contents(*m)[*k])
        } else {
            None
        }),
{
    m.get(k).map(|e| e.value().clone())
}

/// `DashMap::insert`: stores `v` under `k`, replacing any old value.
#[verifier::external_body]
pub(crate) fn token_map_insert(m: &mut TokenMap, k: RequestKey, v: String)
    ensures
        token_map_contents(*final(m)) == token_map_contents(*old(m)).insert(k, v),
{
    m.insert(k, v);
}

/// `DashMap::remove`: drops the value stored under `k`.
#[verifier::external_body]
pub(crate) fn token_map_remove(m: &mut TokenMap, k: &RequestKey)
    ensures
        token_map_contents(*final(m)) == token_map_contents(*old(m)).remove(*k),
{
    m.remove(k);
}

// ---- loading map: LoadingMap ----

/// `DashMap::new`: an empty map.
#[verifier::external_body]
pub(crate) fn loading_map_new() -> (m: LoadingMap)
    ensures
        loading_map_contents(m).dom() == Set::<RequestKey>::empty(),
{
    DashMap::new()
}

/// `DashMap::get` with a copy of the value: the start time stored under `k`, if any.
#[verifier::external_body]
pub(crate) fn loading_map_get(m: &LoadingMap, k: &RequestKey) -> (r: Option<u64>)
    ensures
        r == (if loading_map_contents(*m).contains_key(*k) {
            Some(loading_map_contents(*m)[*k])
        } else {
            None
        }),
{
    m.get(k).map(|e| *e.value())
}

/// `DashMap::contains_key`: whether `k` has a value.
#[verifier::external_body]
pub(crate) fn loading_map_contains(m: &LoadingMap, k: &RequestKey) -> (r: bool)
    ensures
        r == loading_map_contents(*m).contains_key(*k),
{
    m.contains_key(k)
}

/// `DashMap::insert`: stores `v` under `k`, replacing any old value.
#[verifier::external_body]
pub(crate) fn loading_map_insert(m: &mut LoadingMap, k: RequestKey, v: u64)
    ensures
        loading_map_contents(*final(m)) == loading_map_contents(*old(m)).insert(k, v),
{
    m.insert(k, v);
}

/// `DashMap::remove`: drops the value stored under `k`.
#[verifier::external_body]
pub(crate) fn loading_map_remove(m: &mut LoadingMap, k: &RequestKey)
    ensures
        loading_map_contents(*final(m)) == loading_map_contents(*old(m)).remove(*k),
{
    m.remove(k);
}

/// `DashMap::len`: the number of keys.
#[verifier::external_body]
pub(crate) fn loading_map_len(m: &LoadingMap) -> (r: usize)
    ensures
        r == loading_map_contents(*m).dom().len(),
{
    m.len()
}

/// `DashMap::iter`, keeping the keys: every key once, in an order the map chooses.
#[verifier::external_body]
pub(crate) fn loading_map_keys(m: &LoadingMap) -> (r: Vec<RequestKey>)
    ensures
        r@.no_duplicates(),
        r@.to_set() == loading_map_contents(*m).dom(),
{
    m.iter().map(|e| *e.key()).collect()
}

// ---- request queue: RequestQueue ----

/// `PriorityQueue::new`: an empty queue.
#[verifier::external_body]
pub(crate) fn queue_new() -> (q: RequestQueue)
    ensures
        queue_contents(q).dom() == Set::<RequestKey>::empty(),
{
    PriorityQueue::new()
}

/// `PriorityQueue::push`: inserts `k` with priority `p`, or updates the priority
/// of `k` if it is already queued, returning the old priority.
#[verifier::external_body]
pub(crate) fn queue_push(q: &mut RequestQueue, k: RequestKey, p: u8) -> (r: Option<u8>)
    ensures
        queue_contents(*final(q)) == queue_contents(*old(q)).insert(k, p),
        r == (if queue_contents(*old(q)).contains_key(k) {
            Some(queue_contents(*old(q))[k])
        } else {
            None
        }),
{
    q.push(k, p)
}

/// `PriorityQueue::pop`: removes and returns an item of the greatest priority,
/// or `None` when the queue is empty. Among items of equal priority, which one
/// comes out is left to the queue.
#[verifier::external_body]
pub(crate) fn queue_pop(q: &mut RequestQueue) -> (r: Option<(RequestKey, u8)>)
    ensures
        match r {
            None => queue_contents(*old(q)).dom().len() == 0 && queue_contents(*old(q)).dom().finite()
                && queue_contents(*final(q)) == queue_contents(*old(q)),
            Some((k, p)) => {
                &&& queue_contents(*old(q)).contains_key(k)
                &&& queue_contents(*old(q))[k] == p
                &&& forall|j: RequestKey| #[trigger] queue_contents(*old(q)).contains_key(j)
                    ==> queue_contents(*old(q))[j] <= p
                &&& queue_contents(*final(q)) == queue_contents(*old(q)).remove(k)
            },
        },
{
    q.pop()
}

/// `PriorityQueue::peek`: an item of the greatest priority, without removing it.
#[verifier::external_body]
pub(crate) fn queue_peek(q: &RequestQueue) -> (r: Option<(RequestKey, u8)>)
    ensures
        match r {
            None => queue_contents(*q).dom().len() == 0 && queue_contents(*q).dom().finite(),
            Some((k, p)) => {
                &&& queue_contents(*q).contains_key(k)
                &&& queue_contents(*q)[k] == p
                &&& forall|j: RequestKey| #[trigger] queue_contents(*q).contains_key(j)
                    ==> queue_contents(*q)[j] <= p
            },
        },
{
    q.peek().map(|(k, p)| (*k, *p))
}

/// `PriorityQueue::get_priority`: the priority of `k`, if queued.
#[verifier::external_body]
pub(crate) fn queue_get_priority(q: &RequestQueue, k: &RequestKey) -> (r: Option<u8>)
    ensures
        r == (if queue_contents(*q).contains_key(*k) {
            Some(queue_contents(*q)[*k])
        } else {
            None
        }),
{
    q.get_priority(k).copied()
}

/// `PriorityQueue::change_priority`: sets the priority of `k` if it is queued.
#[verifier::external_body]
pub(crate) fn queue_change_priority(q: &mut RequestQueue, k: &RequestKey, p: u8)
    ensures
        queue_contents(*final(q)) == (if queue_contents(*old(q)).contains_key(*k) {
            queue_contents(*old(q)).insert(*k, p)
        } else {
            queue_contents(*old(q))
        }),
{
    q.change_priority(k, p);
}

/// `PriorityQueue::remove`: takes `k` out of the queue; returns whether it was queued.
#[verifier::external_body]
pub(crate) fn queue_remove(q: &mut RequestQueue, k: &RequestKey) -> (r: bool)
    ensures
        queue_contents(*final(q)) == queue_contents(*old(q)).remove(*k),
        r == queue_contents(*old(q)).contains_key(*k),
{
    q.remove(k).is_some()
}

/// `PriorityQueue::len`: the number of queued items.
#[verifier::external_body]
pub(crate) fn queue_len(q: &RequestQueue) -> (r: usize)
    ensures
        r == queue_contents(*q).dom().len(),
{
    q.len()
}

/// `PriorityQueue::iter`: every queued item once with its priority, in an order
/// the queue chooses.
#[verifier::external_body]
pub(crate) fn queue_items(q: &RequestQueue) -> (r: Vec<(RequestKey, u8)>)
    ensures
        crate::image_cache::pair_keys_u8(r@).no_duplicates(),
        crate::image_cache::pair_keys_u8(r@).to_set() == queue_contents(*q).dom(),
        forall|i: int| 0 <= i < r@.len() ==> queue_contents(*q)[#[trigger] r@[i].0] == r@[i].1,
{
    q.iter().map(|(k, p)| (*k, *p)).collect()
}

} // verus!
