//! Poster demand planning: turning the UI's visible, prefetch and background
//! media ids into prioritised image requests, and reconciling them with the
//! image cache on each planner tick.
use vstd::prelude::*;
use std::collections::HashMap;
use crate::image_types::{
    ImageRequest, Priority, PosterKind, PosterSize, EpisodeStillSize, RequestKey, request_key,
    priority_weight,
};
use crate::image_cache::{
    UnifiedImageService, CacheModel, ServiceStateSnapshot, requested_model, request_proceeds,
    snapshot_model, keys_of, sat_sub,
};

verus! {

broadcast use vstd::std_specs::hash::group_hash_axioms;

/// Explicit image to request for a media id, overriding the default poster.
#[derive(Debug, Clone, Copy, PartialEq, Eq, Structural)]
pub enum DemandRequestKind {
    Poster { kind: PosterKind, size: PosterSize },
    EpisodeStill { size: EpisodeStillSize },
}

/// Optional context for non-grid imagery (hero, backdrop, cast, episode stills).
#[derive(Debug, Clone)]
pub struct DemandContext {
    overrides: HashMap<u128, DemandRequestKind>,
}

impl View for DemandContext {
    type V = Map<u128, DemandRequestKind>;

    closed spec fn view(&self) -> Map<u128, DemandRequestKind> {
        self.overrides@
    }
}

impl Default for DemandContext {
    fn default() -> (c: DemandContext)
        ensures
            c@ == Map::<u128, DemandRequestKind>::empty(),
    {
        DemandContext { overrides: HashMap::new() }
    }
}

impl DemandContext {
    pub fn new() -> (c: DemandContext)
        ensures
            c@ == Map::<u128, DemandRequestKind>::empty(),
    {
        DemandContext { overrides: HashMap::new() }
    }

    /// Record an explicit image request mapping for a media id.
    pub fn override_request(&mut self, id: u128, kind: DemandRequestKind)
        ensures
            final(self)@ == old(self)@.insert(id, kind),
    {
        self.overrides.insert(id, kind);
    }

    /// The explicit request mapping for a media id, if any.
    pub fn request_kind(&self, id: &u128) -> (r: Option<&DemandRequestKind>)
        ensures
            match r {
                Some(k) => self@.contains_key(*id) && *k == self@[*id],
                None => !self@.contains_key(*id),
            },
    {
        self.overrides.get(id)
    }
}

/// The request for an override kind.
pub open spec fn request_for_kind(id: u128, kind: DemandRequestKind) -> ImageRequest {
    match kind {
        DemandRequestKind::Poster { kind, size } => ImageRequest {
            media_id: id,
            size: crate::image_types::ImageSize::Poster(size),
            image_type: crate::image_types::poster_image_type(kind),
            priority: Priority::Visible,
        },
        DemandRequestKind::EpisodeStill { size } => ImageRequest {
            media_id: id,
            size: crate::image_types::ImageSize::EpisodeStill(size),
            image_type: crate::image_types::ImageType::Episode,
            priority: Priority::Visible,
        },
    }
}

/// The request for media `id`: the context's override if it has one, else a
/// W300 poster of `fallback` (a movie poster when no kind is given).
pub open spec fn resolved_request(id: u128, fallback: Option<PosterKind>, context: Option<Map<u128, DemandRequestKind>>) -> ImageRequest {
    if context is Some && context->0.contains_key(id) {
        request_for_kind(id, context->0[id])
    } else {
        ImageRequest {
            media_id: id,
            size: crate::image_types::ImageSize::Poster(PosterSize::W300),
            image_type: crate::image_types::poster_image_type(
                if fallback is Some { fallback->0 } else { PosterKind::Movie },
            ),
            priority: Priority::Visible,
        }
    }
}

pub open spec fn context_view(context: Option<&DemandContext>) -> Option<Map<u128, DemandRequestKind>> {
    match context {
        Some(c) => Some(c@),
        None => None,
    }
}

pub fn resolve_image_request(id: u128, fallback_kind: Option<PosterKind>, context: Option<&DemandContext>) -> (r: ImageRequest)
    ensures
        r == resolved_request(id, fallback_kind, context_view(context)),
{
    if let Some(ctx) = context {
        if let Some(kind) = ctx.request_kind(&id) {
            return match kind {
                DemandRequestKind::Poster { kind, size } => ImageRequest::poster(id, *kind, *size),
                DemandRequestKind::EpisodeStill { size } => ImageRequest::episode_still(id, *size),
            };
        }
    }
    let kind = match fallback_kind {
        Some(k) => k,
        None => PosterKind::Movie,
    };
    ImageRequest::poster(id, kind, PosterSize::W300)
}

/// Distance of index `i` from the center index `c`.
pub open spec fn center_distance(i: int, c: int) -> int {
    if i >= c { i - c } else { c - i }
}

/// `order` lists the indices `0..n` by distance from the center `n / 2`,
/// lower indices first among equal distances.
pub open spec fn is_center_order(order: Seq<usize>, n: nat) -> bool {
    let c = (n / 2) as int;
    &&& order.len() == n
    &&& forall|a: int| 0 <= a < order.len() ==> #[trigger] order[a] < n
    &&& order.no_duplicates()
    &&& forall|a: int, b: int| 0 <= a < b < order.len() ==> {
        ||| center_distance(#[trigger] order[a] as int, c) < center_distance(#[trigger] order[b] as int, c)
        ||| (center_distance(order[a] as int, c) == center_distance(order[b] as int, c) && order[a] < order[b])
    }
}

/// The center index followed by the indices at distance `1..=d` from it,
/// lower side first at each distance (those within `0..n`).
pub open spec fn center_prefix(n: nat, d: nat) -> Seq<usize>
    decreases d,
{
    let c = n / 2;
    if d == 0 {
        seq![c as usize]
    } else {
        let p = center_prefix(n, (d - 1) as nat);
        let p1 = if d <= c { p.push((c - d) as usize) } else { p };
        if d < n - c { p1.push((c + d) as usize) } else { p1 }
    }
}

/// The indices `0..n` in centre-out order.
pub open spec fn center_seq(n: nat) -> Seq<usize> {
    if n == 0 { Seq::empty() } else { center_prefix(n, n / 2) }
}

/// The indices `0..n`, center first, then alternating outwards, lower side first.
pub fn center_order(n: usize) -> (order: Vec<usize>)
    ensures
        is_center_order(order@, n as nat),
        order@ == center_seq(n as nat),
{
    let mut order: Vec<usize> = Vec::new();
    if n == 0 {
        return order;
    }
    let c = n / 2;
    order.push(c);
    assert(order@[0] == c);
    let mut d: usize = 1;
    while d <= c || d < n - c
        invariant
            n > 0,
            c == n / 2,
            1 <= d <= n,
            d <= c + 1,
            order@ == center_prefix(n as nat, (d - 1) as nat),
            forall|a: int| 0 <= a < order@.len() ==> #[trigger] order@[a] < n,
            forall|a: int| 0 <= a < order@.len() ==> center_distance(#[trigger] order@[a] as int, c as int) < d,
            forall|i: int| 0 <= i < n && center_distance(i, c as int) < d ==> order@.contains(i as usize),
            order@.no_duplicates(),
            forall|a: int, b: int| 0 <= a < b < order@.len() ==> {
                ||| center_distance(#[trigger] order@[a] as int, c as int) < center_distance(#[trigger] order@[b] as int, c as int)
                ||| (center_distance(order@[a] as int, c as int) == center_distance(order@[b] as int, c as int) && order@[a] < order@[b])
            },
        decreases n - d,
    {
        let ghost before = order@;
        if d <= c {
            order.push(c - d);
        }
        let ghost mid = order@;
        if d < n - c {
            order.push(c + d);
        }
        proof {
            assert forall|a: int| 0 <= a < order@.len() implies center_distance(#[trigger] order@[a] as int, c as int) < d + 1 by {
                if a < before.len() {
                    assert(order@[a] == before[a]);
                }
            }
            assert forall|i: int| 0 <= i < n && center_distance(i, c as int) < d + 1 implies order@.contains(i as usize) by {
                if center_distance(i, c as int) < d {
                    let t = choose|t: int| 0 <= t < before.len() && before[t] == i as usize;
                    assert(order@[t] == before[t]);
                } else if i < c {
                    assert(mid[before.len() as int] == (c - d) as usize);
                    assert(order@[before.len() as int] == mid[before.len() as int]);
                } else {
                    assert(order@[order@.len() - 1] == (c + d) as usize);
                }
            }
            assert forall|a: int, b: int| 0 <= a < order@.len() && 0 <= b < order@.len() && a != b implies order@[a] != order@[b] by {
                if a < before.len() && b < before.len() {
                    assert(order@[a] == before[a] && order@[b] == before[b]);
                } else if a < before.len() {
                    assert(order@[a] == before[a]);
                    assert(center_distance(before[a] as int, c as int) < d);
                } else if b < before.len() {
                    assert(order@[b] == before[b]);
                    assert(center_distance(before[b] as int, c as int) < d);
                }
            }
            assert forall|a: int, b: int| 0 <= a < b < order@.len() implies {
                ||| center_distance(#[trigger] order@[a] as int, c as int) < center_distance(#[trigger] order@[b] as int, c as int)
                ||| (center_distance(order@[a] as int, c as int) == center_distance(order@[b] as int, c as int) && order@[a] < order@[b])
            } by {
                if b < before.len() {
                    assert(order@[a] == before[a] && order@[b] == before[b]);
                } else if a < before.len() {
                    assert(order@[a] == before[a]);
                    assert(center_distance(before[a] as int, c as int) < d);
                }
            }
        }
        d += 1;
    }
    proof {
        assert(d - 1 == c);
        assert forall|i: int| 0 <= i < n implies center_distance(i, c as int) < d by {}
        assert(order@.len() == n) by {
            let s = Set::new(|i: usize| i < n);
            assert(order@.to_set() =~= s) by {
                assert forall|i: usize| s.contains(i) implies order@.to_set().contains(i) by {
                    assert(center_distance(i as int, c as int) < d);
                    assert(order@.contains(i as int as usize));
                }
            }
            order@.unique_seq_to_set();
            lemma_usize_range_len(n);
        }
    }
    order
}

proof fn lemma_usize_range_len(n: usize)
    ensures
        Set::new(|i: usize| i < n).finite(),
        Set::new(|i: usize| i < n).len() == n,
    decreases n,
{
    if n == 0 {
        assert(Set::new(|i: usize| i < n) =~= Set::<usize>::empty());
    } else {
        lemma_usize_range_len((n - 1) as usize);
        assert(Set::new(|i: usize| i < n) =~= Set::new(|i: usize| i < (n - 1) as usize).insert((n - 1) as usize));
    }
}


/// Index of the last entry of `acc` whose request has key `k`, or -1.
pub open spec fn key_pos(acc: Seq<(ImageRequest, Priority)>, k: RequestKey) -> int
    decreases acc.len(),
{
    if acc.len() == 0 {
        -1
    } else if request_key(acc.last().0) == k {
        acc.len() - 1
    } else {
        key_pos(acc.drop_last(), k)
    }
}

/// Add `req` at `prio` to `acc`: a request already present keeps its place
/// and is raised to `prio` if that is higher; a new one is appended.
pub open spec fn merge_one(acc: Seq<(ImageRequest, Priority)>, req: ImageRequest, prio: Priority) -> Seq<(ImageRequest, Priority)> {
    let p = key_pos(acc, request_key(req));
    if p >= 0 {
        if priority_weight(prio) > priority_weight(acc[p].1) { acc.update(p, (acc[p].0, prio)) } else { acc }
    } else {
        acc.push((req, prio))
    }
}

/// Add each of `reqs` at `prio`, in order.
pub open spec fn merge_all(acc: Seq<(ImageRequest, Priority)>, reqs: Seq<ImageRequest>, prio: Priority) -> Seq<(ImageRequest, Priority)>
    decreases reqs.len(),
{
    if reqs.len() == 0 {
        acc
    } else {
        merge_one(merge_all(acc, reqs.drop_last(), prio), reqs.last(), prio)
    }
}

proof fn lemma_key_pos(acc: Seq<(ImageRequest, Priority)>, k: RequestKey)
    ensures
        -1 <= key_pos(acc, k) < acc.len(),
        key_pos(acc, k) >= 0 ==> request_key(acc[key_pos(acc, k)].0) == k,
        key_pos(acc, k) == -1 ==> forall|i: int| 0 <= i < acc.len() ==> request_key(#[trigger] acc[i].0) != k,
    decreases acc.len(),
{
    if acc.len() > 0 {
        lemma_key_pos(acc.drop_last(), k);
        if request_key(acc.last().0) != k {
            assert forall|i: int| 0 <= i < acc.len() && key_pos(acc, k) == -1 implies request_key(#[trigger] acc[i].0) != k by {
                if i < acc.len() - 1 {
                    assert(acc[i] == acc.drop_last()[i]);
                }
            }
            if key_pos(acc, k) >= 0 {
                assert(acc[key_pos(acc, k)] == acc.drop_last()[key_pos(acc, k)]);
            }
        }
    }
}

/// Whether `acc` lists image `k` at a tier at least as high as `prio`.
pub open spec fn listed_at_least(acc: Seq<(ImageRequest, Priority)>, k: RequestKey, prio: Priority) -> bool {
    exists|i: int| 0 <= i < acc.len() && request_key(acc[i].0) == k && priority_weight(#[trigger] acc[i].1) >= priority_weight(prio)
}

/// Whether `b` keeps every entry of `a` in place with its tier kept or raised.
pub open spec fn keeps_entries(a: Seq<(ImageRequest, Priority)>, b: Seq<(ImageRequest, Priority)>) -> bool {
    &&& a.len() <= b.len()
    &&& forall|i: int| 0 <= i < a.len() ==> (#[trigger] b[i]).0 == a[i].0 && priority_weight(b[i].1) >= priority_weight(a[i].1)
}

/// Merging a request lists each image at most once, never lowers the tier
/// an image was already asked for, and leaves the merged image listed at a
/// tier at least as high as the one asked.
pub proof fn lemma_merge_one_monotone(acc: Seq<(ImageRequest, Priority)>, req: ImageRequest, prio: Priority)
    requires
        desired_keys(acc).no_duplicates(),
    ensures
        desired_keys(merge_one(acc, req, prio)).no_duplicates(),
        keeps_entries(acc, merge_one(acc, req, prio)),
        listed_at_least(merge_one(acc, req, prio), request_key(req), prio),
{
    let k = request_key(req);
    let m = merge_one(acc, req, prio);
    lemma_key_pos(acc, k);
    let p = key_pos(acc, k);
    if p >= 0 {
        assert(desired_keys(m) =~= desired_keys(acc));
        assert(request_key(m[p].0) == k);
        assert(priority_weight(m[p].1) >= priority_weight(prio));
    } else {
        let n = acc.len() as int;
        assert(m[n] == (req, prio));
        assert(request_key(m[n].0) == k && priority_weight(m[n].1) >= priority_weight(prio));
        assert(desired_keys(m) =~= desired_keys(acc).push(k));
        assert forall|i: int, j: int| 0 <= i < j < desired_keys(m).len() implies desired_keys(m)[i] != desired_keys(m)[j] by {
            if j == n {
                assert(desired_keys(m)[i] == request_key(acc[i].0));
            } else {
                assert(desired_keys(m)[i] == desired_keys(acc)[i] && desired_keys(m)[j] == desired_keys(acc)[j]);
            }
        }
    }
}

/// Merging a list of requests keeps the properties of merging one: each
/// image listed once, no tier lowered, and every merged image listed at a
/// tier at least as high as asked.
pub proof fn lemma_merge_all_monotone(acc: Seq<(ImageRequest, Priority)>, reqs: Seq<ImageRequest>, prio: Priority)
    requires
        desired_keys(acc).no_duplicates(),
    ensures
        desired_keys(merge_all(acc, reqs, prio)).no_duplicates(),
        keeps_entries(acc, merge_all(acc, reqs, prio)),
        forall|j: int| 0 <= j < reqs.len() ==> listed_at_least(merge_all(acc, reqs, prio), request_key(#[trigger] reqs[j]), prio),
    decreases reqs.len(),
{
    if reqs.len() > 0 {
        let prev = merge_all(acc, reqs.drop_last(), prio);
        lemma_merge_all_monotone(acc, reqs.drop_last(), prio);
        lemma_merge_one_monotone(prev, reqs.last(), prio);
        let m = merge_all(acc, reqs, prio);
        assert forall|j: int| 0 <= j < reqs.len() implies listed_at_least(m, request_key(#[trigger] reqs[j]), prio) by {
            if j < reqs.len() - 1 {
                assert(reqs[j] == reqs.drop_last()[j]);
                assert(listed_at_least(prev, request_key(reqs[j]), prio));
                let i = choose|i: int| 0 <= i < prev.len() && request_key(prev[i].0) == request_key(reqs[j]) && priority_weight(#[trigger] prev[i].1) >= priority_weight(prio);
                assert(m[i].0 == prev[i].0);
            }
        }
    }
}

/// The desired set lists each image once; every visible image is asked at
/// `Visible`, every prefetched one at least at `Preload`, and every
/// background one is listed.
pub proof fn lemma_desired_set_tiers(
    visible: Seq<u128>,
    prefetch: Seq<u128>,
    background: Seq<u128>,
    kind: Option<PosterKind>,
    ctx: Option<Map<u128, DemandRequestKind>>,
)
    ensures
        desired_keys(desired_set(visible, prefetch, background, kind, ctx)).no_duplicates(),
        forall|j: int| 0 <= j < visible_requests(visible, kind, ctx).len() ==> listed_at_least(
            desired_set(visible, prefetch, background, kind, ctx),
            request_key(#[trigger] visible_requests(visible, kind, ctx)[j]),
            Priority::Visible,
        ),
        forall|j: int| 0 <= j < prefetch.len() ==> listed_at_least(
            desired_set(visible, prefetch, background, kind, ctx),
            request_key(resolved_request(#[trigger] prefetch[j], kind, ctx)),
            Priority::Preload,
        ),
        forall|j: int| 0 <= j < background.len() ==> listed_at_least(
            desired_set(visible, prefetch, background, kind, ctx),
            request_key(resolved_request(#[trigger] background[j], kind, ctx)),
            Priority::Background,
        ),
{
    let e: Seq<(ImageRequest, Priority)> = Seq::empty();
    assert(desired_keys(e) =~= Seq::<RequestKey>::empty());
    let vr = visible_requests(visible, kind, ctx);
    let pr = requests_for(prefetch, kind, ctx);
    let br = requests_for(background, kind, ctx);
    let s1 = merge_all(e, vr, Priority::Visible);
    let s2 = merge_all(s1, pr, Priority::Preload);
    let s3 = merge_all(s2, br, Priority::Background);
    lemma_merge_all_monotone(e, vr, Priority::Visible);
    lemma_merge_all_monotone(s1, pr, Priority::Preload);
    lemma_merge_all_monotone(s2, br, Priority::Background);
    assert forall|j: int| 0 <= j < vr.len() implies listed_at_least(s3, request_key(#[trigger] vr[j]), Priority::Visible) by {
        let i = choose|i: int| 0 <= i < s1.len() && request_key(s1[i].0) == request_key(vr[j]) && priority_weight(#[trigger] s1[i].1) >= priority_weight(Priority::Visible);
        assert(s2[i].0 == s1[i].0);
        assert(s3[i].0 == s2[i].0);
    }
    assert forall|j: int| 0 <= j < prefetch.len() implies listed_at_least(s3, request_key(resolved_request(#[trigger] prefetch[j], kind, ctx)), Priority::Preload) by {
        assert(pr[j] == resolved_request(prefetch[j], kind, ctx));
        let i = choose|i: int| 0 <= i < s2.len() && request_key(s2[i].0) == request_key(pr[j]) && priority_weight(#[trigger] s2[i].1) >= priority_weight(Priority::Preload);
        assert(s3[i].0 == s2[i].0);
    }
    assert forall|j: int| 0 <= j < background.len() implies listed_at_least(s3, request_key(resolved_request(#[trigger] background[j], kind, ctx)), Priority::Background) by {
        assert(br[j] == resolved_request(background[j], kind, ctx));
    }
}

/// The requests for `ids`, in order.
pub open spec fn requests_for(ids: Seq<u128>, kind: Option<PosterKind>, ctx: Option<Map<u128, DemandRequestKind>>) -> Seq<ImageRequest> {
    ids.map_values(|id: u128| resolved_request(id, kind, ctx))
}

/// The requests for the visible ids, centre-out.
pub open spec fn visible_requests(ids: Seq<u128>, kind: Option<PosterKind>, ctx: Option<Map<u128, DemandRequestKind>>) -> Seq<ImageRequest> {
    center_seq(ids.len()).map_values(|i: usize| resolved_request(ids[i as int], kind, ctx))
}

/// The desired requests: visible ones centre-out at `Visible`, then prefetch
/// ones at `Preload`, then background ones at `Background`, each request once
/// at the highest tier it was asked for, in order of first appearance.
pub open spec fn desired_set(
    visible: Seq<u128>,
    prefetch: Seq<u128>,
    background: Seq<u128>,
    kind: Option<PosterKind>,
    ctx: Option<Map<u128, DemandRequestKind>>,
) -> Seq<(ImageRequest, Priority)> {
    merge_all(
        merge_all(merge_all(Seq::empty(), visible_requests(visible, kind, ctx), Priority::Visible),
            requests_for(prefetch, kind, ctx), Priority::Preload),
        requests_for(background, kind, ctx), Priority::Background)
}

/// Insert `req` at `prio`, or raise the priority of the request already present.
pub fn push_or_update(out: &mut Vec<(ImageRequest, Priority)>, req: ImageRequest, prio: Priority)
    ensures
        final(out)@ == merge_one(old(out)@, req, prio),
{
    let k = req.key();
    let mut i: usize = out.len();
    assert(out@.take(i as int) == out@);
    while i > 0
        invariant
            i <= out@.len(),
            k == request_key(req),
            out@ == old(out)@,
            key_pos(out@, k) == key_pos(out@.take(i as int), k),
        decreases i,
    {
        proof {
            assert(out@.take(i as int).drop_last() == out@.take(i - 1));
            assert(out@.take(i as int).last() == out@[i - 1]);
        }
        if out[i - 1].0.same_image(&req) {
            assert(out@.take(i as int).len() == i);
            assert(request_key(out@.take(i as int).last().0) == k);
            assert(key_pos(out@.take(i as int), k) == i - 1);
            assert(key_pos(out@, k) == i - 1);
            let existing = out[i - 1];
            if prio.weight() > existing.1.weight() {
                out.set(i - 1, (existing.0, prio));
            }
            return;
        }
        i -= 1;
    }
    assert(out@.take(0).len() == 0);
    out.push((req, prio));
}

/// Add each of `reqs` at `prio`.
fn merge_requests(out: &mut Vec<(ImageRequest, Priority)>, reqs: &Vec<ImageRequest>, prio: Priority)
    ensures
        final(out)@ == merge_all(old(out)@, reqs@, prio),
{
    let mut i: usize = 0;
    while i < reqs.len()
        invariant
            i <= reqs@.len(),
            out@ == merge_all(old(out)@, reqs@.take(i as int), prio),
        decreases reqs@.len() - i,
    {
        proof {
            assert(reqs@.take(i + 1).drop_last() == reqs@.take(i as int));
        }
        push_or_update(out, reqs[i], prio);
        i += 1;
    }
    assert(reqs@.take(reqs@.len() as int) == reqs@);
}

/// Map media ids to their requests.
fn requests_for_ids(ids: &Vec<u128>, kind: Option<PosterKind>, context: Option<&DemandContext>) -> (r: Vec<ImageRequest>)
    ensures
        r@ == requests_for(ids@, kind, context_view(context)),
{
    let mut r: Vec<ImageRequest> = Vec::new();
    let mut i: usize = 0;
    while i < ids.len()
        invariant
            i <= ids@.len(),
            r@ == requests_for(ids@.take(i as int), kind, context_view(context)),
        decreases ids@.len() - i,
    {
        r.push(resolve_image_request(ids[i], kind, context));
        proof {
            assert(ids@.take(i + 1) == ids@.take(i as int).push(ids@[i as int]));
            assert(requests_for(ids@.take(i + 1), kind, context_view(context))
                =~= requests_for(ids@.take(i as int), kind, context_view(context)).push(resolved_request(ids@[i as int], kind, context_view(context))));
        }
        i += 1;
    }
    assert(ids@.take(ids@.len() as int) == ids@);
    r
}

/// Map media ids to image requests with their priority tiers.
pub fn build_desired_set(
    visible_ids: &Vec<u128>,
    prefetch_ids: &Vec<u128>,
    background_ids: &Vec<u128>,
    poster_kind: Option<PosterKind>,
    context: Option<&DemandContext>,
) -> (out: Vec<(ImageRequest, Priority)>)
    ensures
        out@ == desired_set(visible_ids@, prefetch_ids@, background_ids@, poster_kind, context_view(context)),
{
    let mut out: Vec<(ImageRequest, Priority)> = Vec::new();
    let order = center_order(visible_ids.len());
    let mut vis: Vec<ImageRequest> = Vec::new();
    let mut i: usize = 0;
    while i < order.len()
        invariant
            i <= order@.len(),
            is_center_order(order@, visible_ids@.len()),
            order@ == center_seq(visible_ids@.len()),
            vis@ == order@.take(i as int).map_values(|j: usize| resolved_request(visible_ids@[j as int], poster_kind, context_view(context))),
        decreases order@.len() - i,
    {
        let j = order[i];
        vis.push(resolve_image_request(visible_ids[j], poster_kind, context));
        proof {
            assert(order@.take(i + 1) == order@.take(i as int).push(j));
            assert(order@.take(i + 1).map_values(|j: usize| resolved_request(visible_ids@[j as int], poster_kind, context_view(context)))
                =~= order@.take(i as int).map_values(|j: usize| resolved_request(visible_ids@[j as int], poster_kind, context_view(context))).push(
                    resolved_request(visible_ids@[j as int], poster_kind, context_view(context))));
        }
        i += 1;
    }
    assert(order@.take(order@.len() as int) == order@);
    merge_requests(&mut out, &vis, Priority::Visible);
    let pre = requests_for_ids(prefetch_ids, poster_kind, context);
    merge_requests(&mut out, &pre, Priority::Preload);
    let back = requests_for_ids(background_ids, poster_kind, context);
    merge_requests(&mut out, &back, Priority::Background);
    out
}


/// Grace period before an undesired in-flight load may be cancelled.
pub const CANCELLATION_GRACE_MS: u64 = 75;
/// Most in-flight loads the caller cancels per planner tick.
pub const MAX_CANCEL_PER_TICK: usize = 6;

/// Whether another cancellation may be tried this tick, after `cancelled`
/// succeeded: at most `MAX_CANCEL_PER_TICK` per tick.
pub fn may_cancel_more(cancelled: usize) -> (b: bool)
    ensures
        b == (cancelled < MAX_CANCEL_PER_TICK),
{
    cancelled < MAX_CANCEL_PER_TICK
}

/// The count of successful cancellations after one more attempt, which
/// cancelled a load or found none to cancel.
pub fn count_cancel(cancelled: usize, did_cancel: bool) -> (n: usize)
    requires
        cancelled < MAX_CANCEL_PER_TICK,
    ensures
        n == if did_cancel { cancelled + 1 } else { cancelled as int },
        n <= MAX_CANCEL_PER_TICK,
{
    if did_cancel { cancelled + 1 } else { cancelled }
}

/// Snapshot of current demand produced by the UI layer.
#[derive(Debug, Clone)]
pub struct DemandSnapshot {
    pub visible_ids: Vec<u128>,
    pub prefetch_ids: Vec<u128>,
    pub background_ids: Vec<u128>,
    /// When the snapshot was taken, in milliseconds.
    pub timestamp: u64,
    pub context: Option<DemandContext>,
    pub poster_kind: Option<PosterKind>,
}

pub open spec fn snapshot_context(s: DemandSnapshot) -> Option<Map<u128, DemandRequestKind>> {
    match s.context {
        Some(c) => Some(c@),
        None => None,
    }
}

/// The desired requests of one snapshot.
pub open spec fn snapshot_desired(s: DemandSnapshot) -> Seq<(ImageRequest, Priority)> {
    desired_set(s.visible_ids@, s.prefetch_ids@, s.background_ids@, s.poster_kind, snapshot_context(s))
}

/// Merge the pairs `ps` into `acc`, in order.
pub open spec fn merge_pairs(acc: Seq<(ImageRequest, Priority)>, ps: Seq<(ImageRequest, Priority)>) -> Seq<(ImageRequest, Priority)>
    decreases ps.len(),
{
    if ps.len() == 0 {
        acc
    } else {
        merge_one(merge_pairs(acc, ps.drop_last()), ps.last().0, ps.last().1)
    }
}

/// The union of the desired requests of all snapshots, in order of first
/// appearance, each at the highest tier any snapshot asked for.
pub open spec fn union_desired(snaps: Seq<DemandSnapshot>) -> Seq<(ImageRequest, Priority)>
    decreases snaps.len(),
{
    if snaps.len() == 0 {
        Seq::empty()
    } else {
        merge_pairs(union_desired(snaps.drop_last()), snapshot_desired(snaps.last()))
    }
}

/// The keys of a sequence of (request, priority) pairs.
pub open spec fn desired_keys(ps: Seq<(ImageRequest, Priority)>) -> Seq<RequestKey> {
    ps.map_values(|p: (ImageRequest, Priority)| request_key(p.0))
}

/// The cache after requesting each of `ps` at its priority, skipping those in `loaded`.
pub open spec fn request_all(m: CacheModel, ps: Seq<(ImageRequest, Priority)>, loaded: Set<RequestKey>, now: u64) -> CacheModel
    decreases ps.len(),
{
    if ps.len() == 0 {
        m
    } else {
        let m0 = request_all(m, ps.drop_last(), loaded, now);
        let r = ps.last().0;
        if loaded.contains(request_key(r)) {
            m0
        } else {
            requested_model(m0, ImageRequest { priority: ps.last().1, ..r }, now)
        }
    }
}

/// Whether any of those requests asks for the loader to be woken.
pub open spec fn request_all_wakes(m: CacheModel, ps: Seq<(ImageRequest, Priority)>, loaded: Set<RequestKey>, now: u64) -> bool
    decreases ps.len(),
{
    if ps.len() == 0 {
        false
    } else {
        let m0 = request_all(m, ps.drop_last(), loaded, now);
        let r = ps.last().0;
        let k = request_key(r);
        request_all_wakes(m, ps.drop_last(), loaded, now)
            || (!loaded.contains(k) && request_proceeds(m0, k, now)
                && (!m0.queue.contains_key(k) || priority_weight(ps.last().1) > m0.queue[k]))
    }
}

/// The keys that hold a loaded image.
pub open spec fn loaded_keys(m: CacheModel) -> Set<RequestKey> {
    Set::new(|k: RequestKey| m.entries.contains_key(k) && m.entries[k].state is Loaded)
}

/// Requests never touch the loads in flight, the concurrency setting, or drop
/// a queued request.
pub proof fn lemma_request_all_frame(m: CacheModel, ps: Seq<(ImageRequest, Priority)>, loaded: Set<RequestKey>, now: u64)
    ensures
        request_all(m, ps, loaded, now).loading == m.loading,
        request_all(m, ps, loaded, now).max_concurrent == m.max_concurrent,
        forall|k: RequestKey| #[trigger] m.queue.contains_key(k) ==> request_all(m, ps, loaded, now).queue.contains_key(k),
    decreases ps.len(),
{
    if ps.len() > 0 {
        lemma_request_all_frame(m, ps.drop_last(), loaded, now);
    }
}

/// What a planner tick asks of its caller.
#[derive(Debug, Clone)]
pub struct PlanOutcome {
    /// In-flight loads that are no longer desired and have run past the grace
    /// period; the caller cancels them in this order, stopping after
    /// `MAX_CANCEL_PER_TICK` successful cancellations.
    pub cancel_candidates: Vec<ImageRequest>,
    /// Number of queued requests dropped because they are no longer desired.
    pub trimmed: usize,
    /// Whether the loader should be woken.
    pub wake: bool,
}

/// Whether `union` holds a request with key `k`.
fn desired_contains(union: &Vec<(ImageRequest, Priority)>, request: &ImageRequest) -> (b: bool)
    ensures
        b == desired_keys(union@).contains(request_key(*request)),
{
    let mut i: usize = 0;
    while i < union.len()
        invariant
            i <= union@.len(),
            forall|t: int| 0 <= t < i ==> request_key(#[trigger] union@[t].0) != request_key(*request),
        decreases union@.len() - i,
    {
        if union[i].0.same_image(request) {
            assert(desired_keys(union@)[i as int] == request_key(*request));
            return true;
        }
        i += 1;
    }
    proof {
        if desired_keys(union@).contains(request_key(*request)) {
            let t = choose|t: int| 0 <= t < desired_keys(union@).len() && desired_keys(union@)[t] == request_key(*request);
            assert(request_key(union@[t].0) == request_key(*request));
        }
    }
    false
}

/// One planner tick over the snapshots drained since the last tick: request
/// every desired image that is not loaded, list undesired in-flight loads to
/// cancel when the loader is saturated, and drop undesired queued requests.
pub fn plan_tick(service: &mut UnifiedImageService, snapshots: &Vec<DemandSnapshot>, now: u64) -> (out: PlanOutcome)
    requires
        old(service).wf(),
    ensures
        final(service).wf(),
        ({
            let m = old(service)@;
            let union = union_desired(snapshots@);
            let d = desired_keys(union).to_set();
            let mid = request_all(snapshot_model(m), union, loaded_keys(m), now);
            let trim = Set::new(|k: RequestKey| m.queue.contains_key(k) && !d.contains(k));
            let cancel = Set::new(|k: RequestKey| m.loading.contains_key(k) && !d.contains(k)
                && sat_sub(now, m.loading[k]) >= CANCELLATION_GRACE_MS);
            &&& out.wake == request_all_wakes(snapshot_model(m), union, loaded_keys(m), now)
            &&& final(service)@ == (CacheModel { queue: mid.queue.remove_keys(trim), ..mid })
            &&& out.trimmed == trim.len()
            &&& keys_of(out.cancel_candidates@).no_duplicates()
            &&& keys_of(out.cancel_candidates@).to_set() == if m.loading.dom().len() >= m.max_concurrent { cancel } else { Set::empty() }
        }),
{
    let ghost m = service@;
    let mut union: Vec<(ImageRequest, Priority)> = Vec::new();
    let mut s: usize = 0;
    while s < snapshots.len()
        invariant
            s <= snapshots@.len(),
            union@ == union_desired(snapshots@.take(s as int)),
        decreases snapshots@.len() - s,
    {
        let snap = &snapshots[s];
        let ctx: Option<&DemandContext> = match &snap.context {
            Some(c) => Some(c),
            None => None,
        };
        let desired = build_desired_set(&snap.visible_ids, &snap.prefetch_ids, &snap.background_ids, snap.poster_kind, ctx);
        assert(context_view(ctx) == snapshot_context(*snap));
        let ghost u0 = union@;
        let mut i: usize = 0;
        while i < desired.len()
            invariant
                i <= desired@.len(),
                union@ == merge_pairs(u0, desired@.take(i as int)),
            decreases desired@.len() - i,
        {
            proof {
                assert(desired@.take(i + 1).drop_last() == desired@.take(i as int));
            }
            push_or_update(&mut union, desired[i].0, desired[i].1);
            i += 1;
        }
        proof {
            assert(desired@.take(desired@.len() as int) == desired@);
            assert(snapshots@.take(s + 1).drop_last() == snapshots@.take(s as int));
        }
        s += 1;
    }
    assert(snapshots@.take(snapshots@.len() as int) == snapshots@);
    let state = service.snapshot_state();
    let ghost m1 = service@;
    let ghost loaded = loaded_keys(m);
    let mut wake = false;
    let mut i: usize = 0;
    while i < union.len()
        invariant
            service.wf(),
            i <= union@.len(),
            keys_of(state.loaded@).to_set() == loaded,
            service@ == request_all(m1, union@.take(i as int), loaded, now),
            wake == request_all_wakes(m1, union@.take(i as int), loaded, now),
        decreases union@.len() - i,
    {
        let (req, prio) = union[i];
        proof {
            assert(union@.take(i + 1).drop_last() == union@.take(i as int));
        }
        if ServiceStateSnapshot::contains(&state.loaded, &req) {
            i += 1;
            continue;
        }
        let w = service.request_image(req.with_priority(prio), now);
        wake = wake || w;
        i += 1;
    }
    assert(union@.take(union@.len() as int) == union@);
    let ghost mid = service@;
    proof {
        lemma_request_all_frame(m1, union@, loaded, now);
    }
    let ghost d = desired_keys(union@).to_set();
    let mut cancel_candidates: Vec<ImageRequest> = Vec::new();
    if state.in_flight >= service.max_concurrent() {
        let mut j: usize = 0;
        while j < state.loading.len()
            invariant
                service@ == mid,
                mid.loading == m.loading,
                d == desired_keys(union@).to_set(),
                j <= state.loading@.len(),
                keys_of(state.loading@).no_duplicates(),
                keys_of(state.loading@).to_set() == m.loading.dom(),
                keys_of(cancel_candidates@).no_duplicates(),
                forall|t: int| 0 <= t < cancel_candidates@.len() ==> {
                    let k = #[trigger] keys_of(cancel_candidates@)[t];
                    &&& m.loading.contains_key(k) && !d.contains(k) && sat_sub(now, m.loading[k]) >= CANCELLATION_GRACE_MS
                    &&& exists|u: int| 0 <= u < j && keys_of(state.loading@)[u] == k
                },
                forall|u: int| 0 <= u < j ==> {
                    let k = #[trigger] keys_of(state.loading@)[u];
                    (m.loading.contains_key(k) && !d.contains(k) && sat_sub(now, m.loading[k]) >= CANCELLATION_GRACE_MS)
                        ==> keys_of(cancel_candidates@).contains(k)
                },
            decreases state.loading@.len() - j,
        {
            let req = state.loading[j];
            assert(keys_of(state.loading@)[j as int] == request_key(req));
            assert(keys_of(state.loading@).to_set().contains(request_key(req)));
            if !desired_contains(&union, &req) {
                match service.loading_started_at(&req) {
                    Some(started) => {
                        if now.saturating_sub(started) >= CANCELLATION_GRACE_MS {
                            let ghost before = cancel_candidates@;
                            cancel_candidates.push(req);
                            proof {
                                assert(keys_of(cancel_candidates@) == keys_of(before).push(request_key(req)));
                                let kr = request_key(req);
                                assert(m.loading.contains_key(kr));
                                assert(!d.contains(kr));
                                assert(mid.loading[kr] == started);
                                assert(sat_sub(now, m.loading[kr]) >= CANCELLATION_GRACE_MS);
                                assert forall|t: int| 0 <= t < cancel_candidates@.len() implies {
                                    let k = #[trigger] keys_of(cancel_candidates@)[t];
                                    &&& m.loading.contains_key(k) && !d.contains(k) && sat_sub(now, m.loading[k]) >= CANCELLATION_GRACE_MS
                                    &&& exists|u: int| 0 <= u < j + 1 && keys_of(state.loading@)[u] == k
                                } by {
                                    if t < before.len() {
                                        assert(keys_of(cancel_candidates@)[t] == keys_of(before)[t]);
                                        let u = choose|u: int| 0 <= u < j && keys_of(state.loading@)[u] == keys_of(before)[t];
                                        assert(0 <= u < j + 1 && keys_of(state.loading@)[u] == keys_of(cancel_candidates@)[t]);
                                    } else {
                                        assert(keys_of(cancel_candidates@)[t] == kr);
                                        assert(keys_of(state.loading@)[j as int] == kr);
                                    }
                                }
                                assert(keys_of(cancel_candidates@).no_duplicates()) by {
                                    assert forall|a: int, b: int| 0 <= a < cancel_candidates@.len() && 0 <= b < cancel_candidates@.len() && a != b
                                        implies keys_of(cancel_candidates@)[a] != keys_of(cancel_candidates@)[b] by {
                                        if a < before.len() && b < before.len() {
                                            assert(keys_of(cancel_candidates@)[a] == keys_of(before)[a]);
                                            assert(keys_of(cancel_candidates@)[b] == keys_of(before)[b]);
                                        } else if a < before.len() {
                                            assert(keys_of(cancel_candidates@)[a] == keys_of(before)[a]);
                                            let u = choose|u: int| 0 <= u < j && keys_of(state.loading@)[u] == keys_of(before)[a];
                                        } else if b < before.len() {
                                            assert(keys_of(cancel_candidates@)[b] == keys_of(before)[b]);
                                            let u = choose|u: int| 0 <= u < j && keys_of(state.loading@)[u] == keys_of(before)[b];
                                        }
                                    }
                                }
                                assert forall|u: int| 0 <= u < j + 1 implies {
                                    let k = #[trigger] keys_of(state.loading@)[u];
                                    (m.loading.contains_key(k) && !d.contains(k) && sat_sub(now, m.loading[k]) >= CANCELLATION_GRACE_MS)
                                        ==> keys_of(cancel_candidates@).contains(k)
                                } by {
                                    let k = keys_of(state.loading@)[u];
                                    if u < j {
                                        if keys_of(before).contains(k) {
                                            let t = choose|t: int| 0 <= t < keys_of(before).len() && keys_of(before)[t] == k;
                                            assert(keys_of(cancel_candidates@)[t] == k);
                                        }
                                    } else {
                                        assert(keys_of(cancel_candidates@)[before.len() as int] == k);
                                    }
                                }
                            }
                        }
                    },
                    None => {},
                }
            }
            j += 1;
        }
        proof {
            let cancel = Set::new(|k: RequestKey| m.loading.contains_key(k) && !d.contains(k)
                && sat_sub(now, m.loading[k]) >= CANCELLATION_GRACE_MS);
            assert(keys_of(cancel_candidates@).to_set() =~= cancel) by {
                assert forall|k: RequestKey| cancel.contains(k) implies keys_of(cancel_candidates@).contains(k) by {
                    assert(keys_of(state.loading@).to_set().contains(k));
                    let u = choose|u: int| 0 <= u < keys_of(state.loading@).len() && keys_of(state.loading@)[u] == k;
                }
                assert forall|k: RequestKey| keys_of(cancel_candidates@).contains(k) implies cancel.contains(k) by {
                    let t = choose|t: int| 0 <= t < keys_of(cancel_candidates@).len() && keys_of(cancel_candidates@)[t] == k;
                }
            }
        }
    } else {
        assert(keys_of(cancel_candidates@).to_set() =~= Set::<RequestKey>::empty());
    }
    let ghost trim = Set::new(|k: RequestKey| m.queue.contains_key(k) && !d.contains(k));
    let ghost qk = keys_of(state.queued@);
    proof {
        assert forall|k: RequestKey| #[trigger] m.queue.contains_key(k) implies mid.queue.contains_key(k) by {
            assert(m1.queue.contains_key(k));
        }
        assert(mid.queue.remove_keys(Set::<RequestKey>::empty()) =~= mid.queue);
    }
    let mut trimmed: usize = 0;
    let mut j: usize = 0;
    let ghost mut removed: Set<RequestKey> = Set::empty();
    while j < state.queued.len()
        invariant
            service.wf(),
            j <= state.queued@.len(),
            qk == keys_of(state.queued@),
            qk.no_duplicates(),
            qk.to_set() == m.queue.dom(),
            forall|k: RequestKey| #[trigger] m.queue.contains_key(k) ==> mid.queue.contains_key(k),
            trim == Set::new(|k: RequestKey| m.queue.contains_key(k) && !d.contains(k)),
            d == desired_keys(union@).to_set(),
            removed.finite(),
            forall|x: RequestKey| #[trigger] removed.contains(x) ==> trim.contains(x) && exists|u: int| 0 <= u < j && qk[u] == x,
            forall|u: int| 0 <= u < j && trim.contains(#[trigger] qk[u]) ==> removed.contains(qk[u]),
            trimmed == removed.len(),
            trimmed <= j,
            service@ == (CacheModel { queue: mid.queue.remove_keys(removed), ..mid }),
        decreases state.queued@.len() - j,
    {
        let req = state.queued[j];
        let ghost k = request_key(req);
        assert(qk[j as int] == k);
        assert(qk.to_set().contains(k));
        if !desired_contains(&union, &req) {
            proof {
                assert(trim.contains(k));
                assert(!removed.contains(k)) by {
                    if removed.contains(k) {
                        let u = choose|u: int| 0 <= u < j && qk[u] == k;
                        assert(qk[u] == qk[j as int]);
                    }
                }
            }
            let b = service.remove_from_queue(&req);
            assert(b);
            trimmed = trimmed + 1;
            proof {
                removed = removed.insert(k);
                assert(service@.queue =~= mid.queue.remove_keys(removed));
                assert forall|x: RequestKey| #[trigger] removed.contains(x) implies trim.contains(x) && exists|u: int| 0 <= u < j + 1 && qk[u] == x by {
                    if x == k {
                        assert(qk[j as int] == x);
                    } else {
                        let u = choose|u: int| 0 <= u < j && qk[u] == x;
                        assert(0 <= u < j + 1 && qk[u] == x);
                    }
                }
            }
        } else {
            proof {
                assert(!trim.contains(k));
                assert forall|x: RequestKey| #[trigger] removed.contains(x) implies trim.contains(x) && exists|u: int| 0 <= u < j + 1 && qk[u] == x by {
                    let u = choose|u: int| 0 <= u < j && qk[u] == x;
                    assert(0 <= u < j + 1 && qk[u] == x);
                }
            }
        }
        j += 1;
    }
    proof {
        assert(removed =~= trim) by {
            assert forall|k: RequestKey| trim.contains(k) implies removed.contains(k) by {
                assert(qk.to_set().contains(k));
                let u = choose|u: int| 0 <= u < qk.len() && qk[u] == k;
                assert(trim.contains(qk[u]));
            }
        }
    }
    PlanOutcome { cancel_candidates, trimmed, wake }
}

} // verus!
