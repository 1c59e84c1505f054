//! The prioritised metadata fetch queue: deduplicated requests, priority
//! upgrades, serving order, and how workers gather requests into batches.
use vstd::prelude::*;
use crate::batch::MediaId;

verus! {

/// Priority levels for fetch requests; `High` is served first.
#[derive(Debug, Clone, Copy, PartialEq, Eq, Structural, Hash)]
pub enum FetchPriority {
    /// Visible items in the current view.
    High,
    /// Non-visible items in the current library.
    Medium,
    /// Items from other libraries.
    Low,
}

/// Rank of a priority: lower is served first.
pub open spec fn rank(p: FetchPriority) -> u8 {
    match p {
        FetchPriority::High => 0,
        FetchPriority::Medium => 1,
        FetchPriority::Low => 2,
    }
}

impl FetchPriority {
    /// Rank of this priority: 0 for high, 1 for medium, 2 for low.
    pub fn rank(&self) -> (r: u8)
        ensures
            r == rank(*self),
    {
        match self {
            FetchPriority::High => 0,
            FetchPriority::Medium => 1,
            FetchPriority::Low => 2,
        }
    }
}

/// A request to fetch metadata for a media item.
#[derive(Debug, Clone, Copy, PartialEq, Eq, Structural)]
pub struct FetchRequest {
    pub priority: FetchPriority,
    pub media_id: MediaId,
    pub library_id: u128,
    /// When the request was made, in microseconds of a monotonic clock.
    pub timestamp: u64,
}

/// Whether `a` is served before `b`: better priority first, and within one
/// priority the later timestamp first.
pub open spec fn served_before(a: FetchRequest, b: FetchRequest) -> bool {
    rank(a.priority) < rank(b.priority) || (rank(a.priority) == rank(b.priority) && a.timestamp > b.timestamp)
}

/// Abstract state of the queue: its requests, the per-priority counters and
/// whether it was shut down.
pub struct QueueModel {
    pub items: Seq<FetchRequest>,
    pub high: usize,
    pub medium: usize,
    pub low: usize,
    pub shut_down: bool,
}

/// Whether a request for `id` is queued.
pub open spec fn has_id(s: Seq<FetchRequest>, id: MediaId) -> bool {
    exists|i: int| 0 <= i < s.len() && (#[trigger] s[i]).media_id == id
}

/// The queued requests other than those for `id`, in order.
pub open spec fn without_id(s: Seq<FetchRequest>, id: MediaId) -> Seq<FetchRequest>
    decreases s.len(),
{
    if s.len() == 0 {
        Seq::empty()
    } else {
        let rest = without_id(s.drop_last(), id);
        if s.last().media_id == id { rest } else { rest.push(s.last()) }
    }
}

/// The priority of the queued request for `id` (the last one, were there several).
pub open spec fn queued_priority(s: Seq<FetchRequest>, id: MediaId) -> FetchPriority
    decreases s.len(),
{
    if s.len() == 0 {
        FetchPriority::Low
    } else if s.last().media_id == id {
        s.last().priority
    } else {
        queued_priority(s.drop_last(), id)
    }
}

/// Number of queued requests with priority `p`.
pub open spec fn count_prio(s: Seq<FetchRequest>, p: FetchPriority) -> nat
    decreases s.len(),
{
    if s.len() == 0 {
        0
    } else {
        count_prio(s.drop_last(), p) + if s.last().priority == p { 1nat } else { 0nat }
    }
}

/// No media id is queued twice.
pub open spec fn unique_ids(s: Seq<FetchRequest>) -> bool {
    forall|i: int, j: int| 0 <= i < j < s.len() ==> (#[trigger] s[i]).media_id != (#[trigger] s[j]).media_id
}

/// The counter of priority `p`.
pub open spec fn counter(m: QueueModel, p: FetchPriority) -> usize {
    match p {
        FetchPriority::High => m.high,
        FetchPriority::Medium => m.medium,
        FetchPriority::Low => m.low,
    }
}

/// `m` with the counter of `p` set to `v`.
pub open spec fn with_counter(m: QueueModel, p: FetchPriority, v: usize) -> QueueModel {
    match p {
        FetchPriority::High => QueueModel { high: v, ..m },
        FetchPriority::Medium => QueueModel { medium: v, ..m },
        FetchPriority::Low => QueueModel { low: v, ..m },
    }
}

/// Well-formed queue state: no id twice, and no counter above the number of
/// queued requests of its priority.
pub open spec fn model_wf(m: QueueModel) -> bool {
    &&& unique_ids(m.items)
    &&& m.high <= count_prio(m.items, FetchPriority::High)
    &&& m.medium <= count_prio(m.items, FetchPriority::Medium)
    &&& m.low <= count_prio(m.items, FetchPriority::Low)
}

/// Queue a request: nothing after shutdown; a new id is added; a queued id
/// is replaced only when the new request has a better priority (an upgrade).
/// The flag says whether anything was queued.
pub open spec fn request_model(m: QueueModel, r: FetchRequest) -> (QueueModel, bool) {
    if m.shut_down {
        (m, false)
    } else if !has_id(m.items, r.media_id) {
        let m1 = QueueModel { items: m.items.push(r), ..m };
        (with_counter(m1, r.priority, (counter(m, r.priority) + 1) as usize), true)
    } else {
        let old_p = queued_priority(m.items, r.media_id);
        if rank(old_p) > rank(r.priority) {
            let m1 = QueueModel { items: without_id(m.items, r.media_id).push(r), ..m };
            let dec = if counter(m, old_p) > 0 { (counter(m, old_p) - 1) as usize } else { 0usize };
            let m2 = with_counter(m1, old_p, dec);
            (with_counter(m2, r.priority, (counter(m2, r.priority) + 1) as usize), true)
        } else {
            (m, false)
        }
    }
}

/// Queue each item in turn with `priority`, the item at index `k` stamped
/// `base + k` so that order is kept within the priority.
pub open spec fn request_all_model(m: QueueModel, items: Seq<(MediaId, u128)>, priority: FetchPriority, base: u64) -> QueueModel
    decreases items.len(),
{
    if items.len() == 0 {
        m
    } else {
        let k = items.len() - 1;
        let prev = request_all_model(m, items.drop_last(), priority, base);
        let r = FetchRequest { priority, media_id: items[k].0, library_id: items[k].1, timestamp: (base + k) as u64 };
        request_model(prev, r).0
    }
}

proof fn lemma_count_push(s: Seq<FetchRequest>, r: FetchRequest, p: FetchPriority)
    ensures
        count_prio(s.push(r), p) == count_prio(s, p) + if r.priority == p { 1nat } else { 0nat },
{
    assert(s.push(r).drop_last() == s);
}

proof fn lemma_count_le_len(s: Seq<FetchRequest>, p: FetchPriority)
    ensures
        count_prio(s, p) <= s.len(),
    decreases s.len(),
{
    if s.len() > 0 {
        lemma_count_le_len(s.drop_last(), p);
    }
}

proof fn lemma_without_id(s: Seq<FetchRequest>, id: MediaId)
    requires
        unique_ids(s),
    ensures
        !has_id(without_id(s, id), id),
        unique_ids(without_id(s, id)),
        without_id(s, id).len() <= s.len(),
        forall|x: FetchRequest| without_id(s, id).contains(x) ==> (s.contains(x) && x.media_id != id),
        forall|p: FetchPriority| #[trigger] count_prio(without_id(s, id), p) + (if has_id(s, id) && queued_priority(s, id) == p { 1nat } else { 0nat }) == count_prio(s, p),
    decreases s.len(),
{
    if s.len() > 0 {
        let p = s.drop_last();
        let l = s.last();
        assert(unique_ids(p)) by {
            assert forall|i: int, j: int| 0 <= i < j < p.len() implies (#[trigger] p[i]).media_id != (#[trigger] p[j]).media_id by {
                assert(p[i] == s[i] && p[j] == s[j]);
            }
        }
        lemma_without_id(p, id);
        let w = without_id(p, id);
        if l.media_id == id {
            assert(!has_id(p, id)) by {
                if has_id(p, id) {
                    let i = choose|i: int| 0 <= i < p.len() && (#[trigger] p[i]).media_id == id;
                    assert(s[i] == p[i]);
                    assert(s[s.len() - 1] == l);
                }
            }
            assert(has_id(s, id)) by {
                assert(s[s.len() - 1] == l);
            }
            assert forall|x: FetchRequest| without_id(s, id).contains(x) implies (s.contains(x) && x.media_id != id) by {
                assert(w.contains(x));
                assert(p.contains(x));
                let i = choose|i: int| 0 <= i < p.len() && p[i] == x;
                assert(s[i] == x);
            }
            assert forall|q: FetchPriority| #[trigger] count_prio(without_id(s, id), q) + (if has_id(s, id) && queued_priority(s, id) == q { 1nat } else { 0nat }) == count_prio(s, q) by {
                assert(count_prio(w, q) == count_prio(p, q));
            }
        } else {
            let w2 = w.push(l);
            assert(without_id(s, id) == w2);
            assert(has_id(s, id) == has_id(p, id)) by {
                if has_id(s, id) {
                    let i = choose|i: int| 0 <= i < s.len() && (#[trigger] s[i]).media_id == id;
                    assert(i < p.len());
                    assert(p[i] == s[i]);
                }
                if has_id(p, id) {
                    let i = choose|i: int| 0 <= i < p.len() && (#[trigger] p[i]).media_id == id;
                    assert(s[i] == p[i]);
                }
            }
            assert(!has_id(w2, id)) by {
                if has_id(w2, id) {
                    let i = choose|i: int| 0 <= i < w2.len() && (#[trigger] w2[i]).media_id == id;
                    if i < w.len() {
                        assert(w2[i] == w[i]);
                        assert(has_id(w, id));
                    }
                }
            }
            assert(!w.contains(l)) by {
                if w.contains(l) {
                    let i = choose|i: int| 0 <= i < w.len() && w[i] == l;
                    assert(p.contains(l));
                    let k = choose|k: int| 0 <= k < p.len() && p[k] == l;
                    assert(s[k] == l && s[s.len() - 1] == l);
                }
            }
            assert(unique_ids(w2)) by {
                assert forall|i: int, j: int| 0 <= i < j < w2.len() implies (#[trigger] w2[i]).media_id != (#[trigger] w2[j]).media_id by {
                    if j == w.len() {
                        assert(w2[j] == l);
                        assert(w2[i] == w[i]);
                        assert(w.contains(w[i]));
                        assert(p.contains(w[i]));
                        let k = choose|k: int| 0 <= k < p.len() && p[k] == w[i];
                        assert(s[k] == w[i] && s[s.len() - 1] == l);
                    } else {
                        assert(w2[i] == w[i] && w2[j] == w[j]);
                    }
                }
            }
            assert forall|x: FetchRequest| w2.contains(x) implies (s.contains(x) && x.media_id != id) by {
                let i = choose|i: int| 0 <= i < w2.len() && w2[i] == x;
                if i < w.len() {
                    assert(w2[i] == w[i]);
                    assert(w.contains(x));
                    assert(p.contains(x));
                    let k = choose|k: int| 0 <= k < p.len() && p[k] == x;
                    assert(s[k] == x);
                } else {
                    assert(s[s.len() - 1] == x);
                }
            }
            assert forall|q: FetchPriority| #[trigger] count_prio(without_id(s, id), q) + (if has_id(s, id) && queued_priority(s, id) == q { 1nat } else { 0nat }) == count_prio(s, q) by {
                lemma_count_push(w, l, q);
                assert(count_prio(w, q) + (if has_id(p, id) && queued_priority(p, id) == q { 1nat } else { 0nat }) == count_prio(p, q));
            }
        }
    }
}

proof fn lemma_queued_priority(s: Seq<FetchRequest>, k: int)
    requires
        unique_ids(s),
        0 <= k < s.len(),
    ensures
        has_id(s, s[k].media_id),
        queued_priority(s, s[k].media_id) == s[k].priority,
    decreases s.len(),
{
    let p = s.drop_last();
    if k < s.len() - 1 {
        assert(p[k] == s[k]);
        assert(s[s.len() - 1].media_id != s[k].media_id);
        assert(unique_ids(p)) by {
            assert forall|i: int, j: int| 0 <= i < j < p.len() implies (#[trigger] p[i]).media_id != (#[trigger] p[j]).media_id by {
                assert(p[i] == s[i] && p[j] == s[j]);
            }
        }
        lemma_queued_priority(p, k);
    }
}

proof fn lemma_count_remove(s: Seq<FetchRequest>, b: int, q: FetchPriority)
    requires
        0 <= b < s.len(),
    ensures
        count_prio(s.remove(b), q) + (if s[b].priority == q { 1nat } else { 0nat }) == count_prio(s, q),
    decreases s.len(),
{
    let p = s.drop_last();
    if b == s.len() - 1 {
        assert(s.remove(b) == p);
    } else {
        assert(s.remove(b) == p.remove(b).push(s.last()));
        lemma_count_remove(p, b, q);
        lemma_count_push(p.remove(b), s.last(), q);
        assert(p[b] == s[b]);
    }
}

/// The queue of pending fetch requests.
pub struct FetchQueue {
    items: Vec<FetchRequest>,
    high: usize,
    medium: usize,
    low: usize,
    shut_down: bool,
}

impl View for FetchQueue {
    type V = QueueModel;

    closed spec fn view(&self) -> QueueModel {
        QueueModel { items: self.items@, high: self.high, medium: self.medium, low: self.low, shut_down: self.shut_down }
    }
}


impl FetchQueue {
    /// Whether the queue state is well formed (see `model_wf`).
    pub open spec fn wf(&self) -> bool {
        model_wf(self@)
    }

    /// An empty, running queue with all counters at zero.
    pub fn new() -> (q: FetchQueue)
        ensures
            q@.items == Seq::<FetchRequest>::empty(),
            q@.high == 0 && q@.medium == 0 && q@.low == 0,
            !q@.shut_down,
            q.wf(),
    {
        FetchQueue { items: Vec::new(), high: 0, medium: 0, low: 0, shut_down: false }
    }

    /// Number of queued requests.
    pub fn len(&self) -> (n: usize)
        ensures
            n == self@.items.len(),
    {
        proof {
            use_view(self);
        }
        self.items.len()
    }

    /// Whether a request for `id` is queued.
    pub fn contains(&self, id: &MediaId) -> (b: bool)
        ensures
            b == has_id(self@.items, *id),
    {
        proof {
            use_view(self);
        }
        let mut k: usize = 0;
        while k < self.items.len()
            invariant
                k <= self.items@.len(),
                self@.items == self.items@,
                forall|t: int| 0 <= t < k ==> (#[trigger] self.items@[t]).media_id != *id,
            decreases self.items@.len() - k,
        {
            if self.items[k].media_id == *id {
                assert(self.items@[k as int].media_id == *id);
                return true;
            }
            k += 1;
        }
        false
    }

    /// Whether nothing is queued.
    pub fn is_empty(&self) -> (b: bool)
        ensures
            b == (self@.items.len() == 0),
    {
        proof {
            use_view(self);
        }
        self.items.len() == 0
    }

    /// The counter of queued requests of priority `p`.
    pub fn queued_count(&self, p: FetchPriority) -> (n: usize)
        ensures
            n == counter(self@, p),
    {
        proof {
            use_view(self);
        }
        match p {
            FetchPriority::High => self.high,
            FetchPriority::Medium => self.medium,
            FetchPriority::Low => self.low,
        }
    }

    fn set_counter(&mut self, p: FetchPriority, v: usize)
        ensures
            final(self)@ == with_counter(old(self)@, p, v),
    {
        proof {
            use_view(self);
        }
        match p {
            FetchPriority::High => {
                self.high = v;
            },
            FetchPriority::Medium => {
                self.medium = v;
            },
            FetchPriority::Low => {
                self.low = v;
            },
        }
        proof {
            use_view(self);
        }
    }

    /// Stop accepting requests.
    pub fn shutdown(&mut self)
        ensures
            final(self)@ == (QueueModel { shut_down: true, ..old(self)@ }),
    {
        proof {
            use_view(self);
        }
        self.shut_down = true;
        proof {
            use_view(self);
        }
    }

    /// Whether the queue was shut down.
    pub fn is_shut_down(&self) -> (b: bool)
        ensures
            b == self@.shut_down,
    {
        proof {
            use_view(self);
        }
        self.shut_down
    }

    /// Queue a request, deduplicated by media id: a queued id is replaced only
    /// when the new request has a better priority. Returns whether anything
    /// was queued (and a worker should be woken).
    pub fn queue_request(&mut self, request: FetchRequest) -> (queued: bool)
        requires
            old(self).wf(),
            old(self)@.items.len() < usize::MAX,
        ensures
            final(self).wf(),
            (final(self)@, queued) == request_model(old(self)@, request),
            final(self)@.items.len() <= old(self)@.items.len() + 1,
    {
        proof {
            use_view(self);
        }
        if self.shut_down {
            return false;
        }
        let id = request.media_id;
        let mut k: usize = 0;
        let mut found: Option<usize> = None;
        while k < self.items.len()
            invariant_except_break
                found is None,
            invariant
                k <= self.items@.len(),
                forall|t: int| 0 <= t < k ==> (#[trigger] self.items@[t]).media_id != id,
            ensures
                match found {
                    Some(f) => f < self.items@.len() && self.items@[f as int].media_id == id,
                    None => forall|t: int| 0 <= t < self.items@.len() ==> (#[trigger] self.items@[t]).media_id != id,
                },
            decreases self.items@.len() - k,
        {
            if self.items[k].media_id == id {
                found = Some(k);
                break;
            }
            k += 1;
        }
        let ghost m = self@;
        match found {
            None => {
                let c = self.queued_count(request.priority);
                proof {
                    lemma_count_le_len(m.items, request.priority);
                }
                self.items.push(request);
                proof {
                    use_view(self);
                    assert(self@ == (QueueModel { items: m.items.push(request), ..m }));
                }
                self.set_counter(request.priority, c + 1);
                proof {
                    assert forall|q: FetchPriority| true implies #[trigger] count_prio(self@.items, q) == count_prio(m.items, q) + if request.priority == q { 1nat } else { 0nat } by {
                        lemma_count_push(m.items, request, q);
                    }
                    assert(unique_ids(self@.items)) by {
                        assert forall|i: int, j: int| 0 <= i < j < self@.items.len() implies (#[trigger] self@.items[i]).media_id != (#[trigger] self@.items[j]).media_id by {
                            if j == m.items.len() {
                                assert(self@.items[i] == m.items[i]);
                            } else {
                                assert(self@.items[i] == m.items[i] && self@.items[j] == m.items[j]);
                            }
                        }
                    }
                }
                true
            },
            Some(f) => {
                let old_p = self.items[f].priority;
                proof {
                    lemma_queued_priority(m.items, f as int);
                }
                if old_p.rank() > request.priority.rank() {
                    let mut kept: Vec<FetchRequest> = Vec::new();
                    let mut i: usize = 0;
                    while i < self.items.len()
                        invariant
                            i <= self.items@.len(),
                            self@ == m,
                            kept@ == without_id(m.items.take(i as int), id),
                        decreases self.items@.len() - i,
                    {
                        proof {
                            use_view(self);
                            assert(m.items.take(i + 1).drop_last() == m.items.take(i as int));
                        }
                        let r = self.items[i];
                        if r.media_id != id {
                            kept.push(r);
                        }
                        i += 1;
                    }
                    proof {
                        use_view(self);
                        assert(m.items.take(m.items.len() as int) == m.items);
                        lemma_without_id(m.items, id);
                    }
                    let c_old = self.queued_count(old_p);
                    kept.push(request);
                    self.items = kept;
                    proof {
                        use_view(self);
                        assert(self@ == (QueueModel { items: without_id(m.items, id).push(request), ..m }));
                    }
                    let dec = if c_old > 0 { c_old - 1 } else { 0 };
                    self.set_counter(old_p, dec);
                    let c_new = self.queued_count(request.priority);
                    proof {
                        lemma_count_le_len(m.items, request.priority);
                    }
                    self.set_counter(request.priority, c_new + 1);
                    proof {
                        let w = without_id(m.items, id);
                        assert forall|q: FetchPriority| true implies #[trigger] count_prio(self@.items, q) == count_prio(w, q) + if request.priority == q { 1nat } else { 0nat } by {
                            lemma_count_push(w, request, q);
                        }
                        assert(count_prio(w, old_p) + 1 == count_prio(m.items, old_p));
                        assert(count_prio(w, request.priority) == count_prio(m.items, request.priority));
                        assert(unique_ids(self@.items)) by {
                            assert forall|a: int, b: int| 0 <= a < b < self@.items.len() implies (#[trigger] self@.items[a]).media_id != (#[trigger] self@.items[b]).media_id by {
                                if b == w.len() {
                                    assert(self@.items[a] == w[a]);
                                    assert(!has_id(w, id));
                                } else {
                                    assert(self@.items[a] == w[a] && self@.items[b] == w[b]);
                                }
                            }
                        }
                    }
                    true
                } else {
                    false
                }
            },
        }
    }

    /// Queue each item in turn with `priority`; the item at index `k` is
    /// stamped `base_timestamp + k` microseconds to keep order within the
    /// priority.
    pub fn queue_items(&mut self, items: &Vec<(MediaId, u128)>, priority: FetchPriority, base_timestamp: u64)
        requires
            old(self).wf(),
            base_timestamp + items@.len() <= u64::MAX,
            old(self)@.items.len() + items@.len() < usize::MAX,
        ensures
            final(self).wf(),
            final(self)@ == request_all_model(old(self)@, items@, priority, base_timestamp),
    {
        let ghost m0 = self@;
        let mut k: usize = 0;
        while k < items.len()
            invariant
                k <= items@.len(),
                self.wf(),
                self@ == request_all_model(m0, items@.take(k as int), priority, base_timestamp),
                self@.items.len() <= m0.items.len() + k,
                base_timestamp + items@.len() <= u64::MAX,
                m0.items.len() + items@.len() < usize::MAX,
            decreases items@.len() - k,
        {
            let (id, lib) = items[k];
            let ts = base_timestamp + k as u64;
            proof {
                assert(items@.take(k + 1).drop_last() == items@.take(k as int));
                assert(items@.take(k + 1)[k as int] == items@[k as int]);
            }
            self.queue_request(FetchRequest { priority, media_id: id, library_id: lib, timestamp: ts });
            k += 1;
        }
        proof {
            assert(items@.take(items@.len() as int) == items@);
        }
    }

    /// Take out the request served next: the best priority, and within it
    /// the latest timestamp. Its priority counter goes down by one (not
    /// below zero).
    pub fn pop(&mut self) -> (r: Option<FetchRequest>)
        requires
            old(self).wf(),
        ensures
            final(self).wf(),
            old(self)@.items.len() == 0 ==> r is None && final(self)@ == old(self)@,
            old(self)@.items.len() > 0 ==> r is Some && exists|b: int| {
                &&& 0 <= b < old(self)@.items.len()
                &&& old(self)@.items[b] == r->0
                &&& final(self)@ == with_counter(
                    QueueModel { items: old(self)@.items.remove(b), ..old(self)@ },
                    r->0.priority,
                    if counter(old(self)@, r->0.priority) > 0 { (counter(old(self)@, r->0.priority) - 1) as usize } else { 0usize },
                )
            },
            old(self)@.items.len() > 0 ==> forall|i: int| 0 <= i < old(self)@.items.len() ==>
                !served_before(#[trigger] old(self)@.items[i], r->0),
    {
        proof {
            use_view(self);
        }
        let n = self.items.len();
        if n == 0 {
            return None;
        }
        let ghost m = self@;
        let mut best: usize = 0;
        let mut i: usize = 1;
        while i < n
            invariant
                n == self.items@.len(),
                self@ == m,
                best < n,
                1 <= i <= n,
                forall|t: int| 0 <= t < i ==> !served_before(#[trigger] self.items@[t], self.items@[best as int]),
            decreases n - i,
        {
            let a = self.items[i];
            let b = self.items[best];
            let ra = a.priority.rank();
            let rb = b.priority.rank();
            if ra < rb || (ra == rb && a.timestamp > b.timestamp) {
                best = i;
            }
            i += 1;
        }
        let r = self.items.remove(best);
        proof {
            use_view(self);
        }
        let c = self.queued_count(r.priority);
        let dec = if c > 0 { c - 1 } else { 0 };
        self.set_counter(r.priority, dec);
        proof {
            assert forall|q: FetchPriority| true implies #[trigger] count_prio(m.items.remove(best as int), q) + (if r.priority == q { 1nat } else { 0nat }) == count_prio(m.items, q) by {
                lemma_count_remove(m.items, best as int, q);
            }
            let s2 = m.items.remove(best as int);
            assert(unique_ids(s2)) by {
                assert forall|a: int, b: int| 0 <= a < b < s2.len() implies (#[trigger] s2[a]).media_id != (#[trigger] s2[b]).media_id by {
                    let ia = if a < best { a } else { a + 1 };
                    let ib = if b < best { b } else { b + 1 };
                    assert(s2[a] == m.items[ia] && s2[b] == m.items[ib]);
                }
            }
        }
        Some(r)
    }

    /// Return a request a worker popped but could not batch.
    pub fn put_back(&mut self, request: FetchRequest)
        requires
            old(self).wf(),
            !has_id(old(self)@.items, request.media_id),
            old(self)@.items.len() < usize::MAX,
        ensures
            final(self).wf(),
            final(self)@ == (QueueModel { items: old(self)@.items.push(request), ..old(self)@ }),
    {
        proof {
            use_view(self);
        }
        let ghost m = self@;
        self.items.push(request);
        proof {
            use_view(self);
            assert forall|q: FetchPriority| true implies #[trigger] count_prio(self@.items, q) == count_prio(m.items, q) + if request.priority == q { 1nat } else { 0nat } by {
                lemma_count_push(m.items, request, q);
            }
            assert(unique_ids(self@.items)) by {
                assert forall|i: int, j: int| 0 <= i < j < self@.items.len() implies (#[trigger] self@.items[i]).media_id != (#[trigger] self@.items[j]).media_id by {
                    if j == m.items.len() {
                        assert(self@.items[i] == m.items[i]);
                    } else {
                        assert(self@.items[i] == m.items[i] && self@.items[j] == m.items[j]);
                    }
                }
            }
        }
    }
}

proof fn use_view(q: &FetchQueue)
    ensures
        q@ == (QueueModel { items: q.items@, high: q.high, medium: q.medium, low: q.low, shut_down: q.shut_down }),
{
}


/// Requesting the same thing twice is the same as requesting it once: the
/// second request changes nothing and queues nothing.
pub proof fn lemma_request_idempotent(m: QueueModel, r: FetchRequest)
    requires
        model_wf(m),
    ensures
        request_model(request_model(m, r).0, r) == (request_model(m, r).0, false),
{
    let m1 = request_model(m, r).0;
    if !m.shut_down && request_model(m, r).1 {
        let n = m1.items.len();
        assert(m1.items[n - 1] == r);
        assert(has_id(m1.items, r.media_id));
        assert(queued_priority(m1.items, r.media_id) == r.priority);
    }
}

/// A request never lowers the priority of what is queued for its media
/// item, and unless the queue is shut down the item is queued afterwards.
pub proof fn lemma_request_never_downgrades(m: QueueModel, r: FetchRequest)
    requires
        model_wf(m),
    ensures
        !m.shut_down ==> has_id(request_model(m, r).0.items, r.media_id),
        has_id(m.items, r.media_id) ==> rank(queued_priority(request_model(m, r).0.items, r.media_id))
            <= rank(queued_priority(m.items, r.media_id)),
{
    let m1 = request_model(m, r).0;
    if !m.shut_down && request_model(m, r).1 {
        let n = m1.items.len();
        assert(m1.items[n - 1] == r);
        assert(has_id(m1.items, r.media_id));
        assert(queued_priority(m1.items, r.media_id) == r.priority);
    }
}

proof fn lemma_without_id_keeps(s: Seq<FetchRequest>, id: MediaId)
    ensures
        forall|x: FetchRequest| #[trigger] s.contains(x) && x.media_id != id ==> without_id(s, id).contains(x),
    decreases s.len(),
{
    if s.len() > 0 {
        let p = s.drop_last();
        lemma_without_id_keeps(p, id);
        assert forall|x: FetchRequest| #[trigger] s.contains(x) && x.media_id != id implies without_id(s, id).contains(x) by {
            let i = choose|i: int| 0 <= i < s.len() && s[i] == x;
            let w = without_id(p, id);
            if i < p.len() {
                assert(p[i] == x);
                assert(p.contains(x));
                assert(w.contains(x));
                if s.last().media_id != id {
                    let j = choose|j: int| 0 <= j < w.len() && w[j] == x;
                    assert(w.push(s.last())[j] == x);
                }
            } else {
                assert(x == s.last());
                assert(w.push(s.last())[w.len() as int] == x);
            }
        }
    }
}

/// A request leaves the other items' queued requests in the queue, and
/// adds nothing but itself: afterwards (unless the queue is shut down) one
/// request is queued for its item.
pub proof fn lemma_request_keeps_others(m: QueueModel, r: FetchRequest)
    requires
        model_wf(m),
    ensures
        forall|x: FetchRequest| #[trigger] m.items.contains(x) && x.media_id != r.media_id
            ==> request_model(m, r).0.items.contains(x),
        forall|y: FetchRequest| #[trigger] request_model(m, r).0.items.contains(y)
            ==> y == r || m.items.contains(y),
        unique_ids(request_model(m, r).0.items),
        !m.shut_down ==> has_id(request_model(m, r).0.items, r.media_id),
{
    let m1 = request_model(m, r).0;
    lemma_without_id_keeps(m.items, r.media_id);
    lemma_without_id(m.items, r.media_id);
    lemma_request_never_downgrades(m, r);
    if !m.shut_down && request_model(m, r).1 {
        if !has_id(m.items, r.media_id) {
            assert(m1.items == m.items.push(r));
            assert forall|x: FetchRequest| #[trigger] m.items.contains(x) && x.media_id != r.media_id implies m1.items.contains(x) by {
                let i = choose|i: int| 0 <= i < m.items.len() && m.items[i] == x;
                assert(m1.items[i] == x);
            }
            assert forall|y: FetchRequest| #[trigger] m1.items.contains(y) implies y == r || m.items.contains(y) by {
                let i = choose|i: int| 0 <= i < m1.items.len() && m1.items[i] == y;
                if i < m.items.len() {
                    assert(m.items[i] == y);
                }
            }
            assert(unique_ids(m1.items)) by {
                assert forall|i: int, j: int| 0 <= i < j < m1.items.len() implies (#[trigger] m1.items[i]).media_id != (#[trigger] m1.items[j]).media_id by {
                    if j == m.items.len() {
                        assert(m1.items[i] == m.items[i]);
                    } else {
                        assert(m1.items[i] == m.items[i] && m1.items[j] == m.items[j]);
                    }
                }
            }
        } else {
            let w = without_id(m.items, r.media_id);
            assert(m1.items == w.push(r));
            assert forall|x: FetchRequest| #[trigger] m.items.contains(x) && x.media_id != r.media_id implies m1.items.contains(x) by {
                assert(w.contains(x));
                let i = choose|i: int| 0 <= i < w.len() && w[i] == x;
                assert(m1.items[i] == x);
            }
            assert forall|y: FetchRequest| #[trigger] m1.items.contains(y) implies y == r || m.items.contains(y) by {
                let i = choose|i: int| 0 <= i < m1.items.len() && m1.items[i] == y;
                if i < w.len() {
                    assert(w[i] == y);
                    assert(w.contains(y));
                }
            }
            assert(unique_ids(m1.items)) by {
                assert forall|i: int, j: int| 0 <= i < j < m1.items.len() implies (#[trigger] m1.items[i]).media_id != (#[trigger] m1.items[j]).media_id by {
                    if j == w.len() {
                        assert(m1.items[i] == w[i]);
                        if w[i].media_id == r.media_id {
                            assert(has_id(w, r.media_id));
                        }
                    } else {
                        assert(m1.items[i] == w[i] && m1.items[j] == w[j]);
                    }
                }
            }
        }
    }
}

/// Largest batch a worker gathers for high-priority requests.
pub const HIGH_PRIORITY_BATCH_SIZE: usize = 30;

/// Largest batch a worker gathers otherwise.
pub const WORKER_BATCH_SIZE: usize = 100;

/// How long a worker waits for a batch to fill, in milliseconds.
pub const BATCH_TIMEOUT_MS: u64 = 500;

/// What became of a request offered to a batch being gathered.
#[derive(Debug, Clone, Copy, PartialEq, Eq, Structural)]
pub enum OfferOutcome {
    /// Already in flight or cached: dropped.
    Skipped,
    /// Added to the batch (and now in flight).
    Taken,
    /// Different priority or library than the batch (now in flight): to be
    /// put back, and the batch processed.
    Rejected,
}

/// A batch a worker is gathering: requests of one priority and one library.
#[derive(Debug, Clone)]
pub struct BatchCollector {
    pub requests: Vec<FetchRequest>,
    pub priority: FetchPriority,
    pub library_id: Option<u128>,
}

impl BatchCollector {
    /// An empty batch; its priority reads low until the first request sets it.
    pub fn new() -> (c: BatchCollector)
        ensures
            c.requests@.len() == 0,
            c.priority == FetchPriority::Low,
            c.library_id is None,
    {
        BatchCollector { requests: Vec::new(), priority: FetchPriority::Low, library_id: None }
    }

    /// Size the batch is gathered up to: smaller for high priority.
    pub fn target_size(&self) -> (n: usize)
        ensures
            n == if self.priority == FetchPriority::High { HIGH_PRIORITY_BATCH_SIZE } else { WORKER_BATCH_SIZE },
    {
        if matches!(self.priority, FetchPriority::High) {
            HIGH_PRIORITY_BATCH_SIZE
        } else {
            WORKER_BATCH_SIZE
        }
    }

    /// Offer a popped request. One in flight or cached is skipped; the first
    /// taken request fixes the batch's priority and library; later ones are
    /// taken only when they match both.
    pub fn offer(&mut self, request: FetchRequest, in_flight: bool, cached: bool) -> (o: OfferOutcome)
        ensures
            (in_flight || cached) ==> o == OfferOutcome::Skipped && final(self).requests@ == old(self).requests@
                && final(self).priority == old(self).priority && final(self).library_id == old(self).library_id,
            !(in_flight || cached) ==> {
                let p = if old(self).requests@.len() == 0 { request.priority } else { old(self).priority };
                let l = if old(self).requests@.len() == 0 { Some(request.library_id) } else { old(self).library_id };
                &&& final(self).priority == p
                &&& final(self).library_id == l
                &&& if request.priority == p && Some(request.library_id) == l {
                    o == OfferOutcome::Taken && final(self).requests@ == old(self).requests@.push(request)
                } else {
                    o == OfferOutcome::Rejected && final(self).requests@ == old(self).requests@
                }
            },
    {
        if in_flight || cached {
            return OfferOutcome::Skipped;
        }
        if self.requests.len() == 0 {
            self.priority = request.priority;
            self.library_id = Some(request.library_id);
        }
        let same_library = match self.library_id {
            Some(l) => l == request.library_id,
            None => false,
        };
        if request.priority == self.priority && same_library {
            self.requests.push(request);
            OfferOutcome::Taken
        } else {
            OfferOutcome::Rejected
        }
    }

    /// Whether the gathered batch should be processed now: it is non-empty
    /// and full, or the wait timed out, or the queue ran dry.
    pub fn should_process(&self, target: usize, elapsed_ms: u64, queue_empty: bool) -> (b: bool)
        ensures
            b == (self.requests@.len() > 0 && (self.requests@.len() >= target || elapsed_ms >= BATCH_TIMEOUT_MS
                || queue_empty)),
    {
        self.requests.len() > 0 && (self.requests.len() >= target || elapsed_ms >= BATCH_TIMEOUT_MS || queue_empty)
    }
}

/// What a worker's gathering step did.
#[derive(Debug, Clone, Copy, PartialEq, Eq, Structural)]
pub enum GatherStep {
    /// The queue was empty: nothing happened.
    QueueEmpty,
    /// A request was skipped or taken: go on gathering.
    Continue,
    /// A request did not fit the batch and went back to the queue: stop.
    Stop,
}

/// The queue after popping the request at `b`.
pub open spec fn popped(q: QueueModel, b: int) -> QueueModel {
    let r = q.items[b];
    with_counter(
        QueueModel { items: q.items.remove(b), ..q },
        r.priority,
        if counter(q, r.priority) > 0 { (counter(q, r.priority) - 1) as usize } else { 0usize },
    )
}

/// Whether `pop` may take the request at `b`: no queued request is served before it.
pub open spec fn valid_pop(q: QueueModel, b: int) -> bool {
    &&& 0 <= b < q.items.len()
    &&& forall|i: int| 0 <= i < q.items.len() ==> !served_before(#[trigger] q.items[i], q.items[b])
}

/// The outcome of offering `r` to a batch with requests `reqs`, priority
/// `p` and library `l`, and the batch's requests, priority and library after.
pub open spec fn offer_model(reqs: Seq<FetchRequest>, p: FetchPriority, l: Option<u128>, r: FetchRequest, busy: bool, cached: bool)
    -> (OfferOutcome, Seq<FetchRequest>, FetchPriority, Option<u128>)
{
    if busy || cached {
        (OfferOutcome::Skipped, reqs, p, l)
    } else {
        let p2 = if reqs.len() == 0 { r.priority } else { p };
        let l2 = if reqs.len() == 0 { Some(r.library_id) } else { l };
        if r.priority == p2 && Some(r.library_id) == l2 {
            (OfferOutcome::Taken, reqs.push(r), p2, l2)
        } else {
            (OfferOutcome::Rejected, reqs, p2, l2)
        }
    }
}

fn id_in(v: &Vec<MediaId>, x: MediaId) -> (b: bool)
    ensures
        b == v@.contains(x),
{
    let mut i: usize = 0;
    while i < v.len()
        invariant
            i <= v@.len(),
            forall|j: int| 0 <= j < i ==> v@[j] != x,
        decreases v@.len() - i,
    {
        if v[i] == x {
            return true;
        }
        i += 1;
    }
    false
}

/// One step of gathering a batch: pop the next request, offer it to the
/// batch (skipped when in flight, listed in `busy`, or already `cached`),
/// mark it in flight unless skipped, and when it does not fit the batch put
/// it back and stop.
pub fn gather_step(queue: &mut FetchQueue, collector: &mut BatchCollector, busy: &mut Vec<MediaId>, cached: &Vec<MediaId>)
    -> (r: GatherStep)
    requires
        old(queue).wf(),
        old(busy)@.len() < usize::MAX,
    ensures
        final(queue).wf(),
        old(queue)@.items.len() == 0 ==> r == GatherStep::QueueEmpty && final(queue)@ == old(queue)@
            && final(busy)@ == old(busy)@ && final(collector).requests@ == old(collector).requests@
            && final(collector).priority == old(collector).priority && final(collector).library_id == old(collector).library_id,
        old(queue)@.items.len() > 0 ==> exists|b: int| #[trigger] valid_pop(old(queue)@, b) && ({
            let req = old(queue)@.items[b];
            let q1 = popped(old(queue)@, b);
            let o = offer_model(old(collector).requests@, old(collector).priority, old(collector).library_id, req,
                old(busy)@.contains(req.media_id), cached@.contains(req.media_id));
            &&& final(collector).requests@ == o.1
            &&& final(collector).priority == o.2
            &&& final(collector).library_id == o.3
            &&& final(busy)@ == if o.0 == OfferOutcome::Skipped { old(busy)@ } else { old(busy)@.push(req.media_id) }
            &&& final(queue)@ == if o.0 == OfferOutcome::Rejected && q1.items.len() < usize::MAX {
                QueueModel { items: q1.items.push(req), ..q1 }
            } else {
                q1
            }
            &&& r == if o.0 == OfferOutcome::Rejected { GatherStep::Stop } else { GatherStep::Continue }
        }),
{
    let ghost q0 = queue@;
    let popped_req = queue.pop();
    let req = match popped_req {
        None => {
            return GatherStep::QueueEmpty;
        },
        Some(r) => r,
    };
    let ghost b = choose|b: int| {
        &&& 0 <= b < q0.items.len()
        &&& q0.items[b] == req
        &&& queue@ == with_counter(
            QueueModel { items: q0.items.remove(b), ..q0 },
            req.priority,
            if counter(q0, req.priority) > 0 { (counter(q0, req.priority) - 1) as usize } else { 0usize },
        )
    };
    let was_busy = id_in(busy, req.media_id);
    let is_cached = id_in(cached, req.media_id);
    let outcome = collector.offer(req, was_busy, is_cached);
    if outcome != OfferOutcome::Skipped {
        busy.push(req.media_id);
    }
    let mut result = GatherStep::Continue;
    if outcome == OfferOutcome::Rejected {
        proof {
            lemma_popped_lacks(q0, b);
        }
        if !queue.contains(&req.media_id) && queue.len() < usize::MAX {
            queue.put_back(req);
        }
        result = GatherStep::Stop;
    }
    proof {
        assert(valid_pop(q0, b));
    }
    result
}

proof fn lemma_popped_lacks(q: QueueModel, b: int)
    requires
        model_wf(q),
        0 <= b < q.items.len(),
    ensures
        !has_id(popped(q, b).items, q.items[b].media_id),
{
    let w = q.items.remove(b);
    if has_id(w, q.items[b].media_id) {
        let i = choose|i: int| 0 <= i < w.len() && (#[trigger] w[i]).media_id == q.items[b].media_id;
        let j = if i < b { i } else { i + 1 };
        assert(w[i] == q.items[j]);
    }
}

} // verus!
