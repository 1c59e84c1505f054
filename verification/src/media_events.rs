//! Applying the server's media events: items added, updated or deleted go
//! to the media store and to the libraries' item lists, and scan events
//! update the scan state. Deleted items arrive as prefixed id strings.
use vstd::prelude::*;
use crate::batch::MediaId;
use crate::media_store::{MediaStore, MediaSummary, StoreModel, upsert_model, remove_model, has_room, without, lists_consistent};
use crate::text::{chars_of, matches_at, concat};

verus! {

/// A library and the ids of the items listed in it, when its list is loaded.
pub struct LibraryMedia {
    pub id: u128,
    pub media: Option<Vec<MediaId>>,
}

/// What a library's entry holds: its id and its item list.
pub open spec fn lib_view(l: LibraryMedia) -> (u128, Option<Seq<MediaId>>) {
    (l.id, match l.media { Some(m) => Some(m@), None => None })
}

/// The libraries as ids and item lists.
pub open spec fn libs_view(v: Seq<LibraryMedia>) -> Seq<(u128, Option<Seq<MediaId>>)> {
    v.map_values(|l: LibraryMedia| lib_view(l))
}

/// The scan the client follows, and what it last heard of it.
pub struct ScanState {
    pub active_scan: Option<u128>,
    pub scanning: bool,
    /// Files scanned and files in all, from the latest progress report.
    pub progress: Option<(u64, u64)>,
    pub error_message: Option<String>,
}

/// An event from the server's media event stream.
pub enum MediaEventKind<T> {
    /// A new item (with what the store reads of it and its payload).
    Added(MediaSummary, T),
    /// A changed item.
    Updated(MediaSummary, T),
    /// A deleted item.
    Deleted(MediaId),
    ScanStarted(u128),
    ScanCompleted(u128),
    /// Progress of a scan: files scanned and files in all.
    ScanProgress(u128, u64, u64),
    /// A scan failed with this error.
    ScanFailed(u128, String),
}

/// Index of the first library with id `id`, or -1.
pub open spec fn first_library(v: Seq<(u128, Option<Seq<MediaId>>)>, id: u128) -> int
    decreases v.len(),
{
    if v.len() == 0 {
        -1
    } else if v[0].0 == id {
        0
    } else {
        let r = first_library(v.skip(1), id);
        if r < 0 { -1 } else { r + 1 }
    }
}

/// The libraries after listing item `x` in the current library (the first
/// with id `current`), starting its list when it has none.
pub open spec fn list_in_current(v: Seq<(u128, Option<Seq<MediaId>>)>, current: Option<u128>, x: MediaId)
    -> Seq<(u128, Option<Seq<MediaId>>)>
{
    match current {
        None => v,
        Some(c) => {
            let i = first_library(v, c);
            if i < 0 {
                v
            } else {
                v.update(i, (c, Some(match v[i].1 { Some(m) => m.push(x), None => seq![x] })))
            }
        },
    }
}

/// The libraries with item `x` dropped from every list.
pub open spec fn unlist_everywhere(v: Seq<(u128, Option<Seq<MediaId>>)>, x: MediaId) -> Seq<(u128, Option<Seq<MediaId>>)> {
    v.map_values(|l: (u128, Option<Seq<MediaId>>)| (l.0, match l.1 { Some(m) => Some(without(m, x)), None => None }))
}

/// The store after an event.
pub open spec fn apply_event_model<T>(m: StoreModel<T>, ev: MediaEventKind<T>) -> StoreModel<T> {
    match ev {
        MediaEventKind::Added(s, p) => upsert_model(m, s, p),
        MediaEventKind::Updated(s, p) => upsert_model(m, s, p),
        MediaEventKind::Deleted(id) => remove_model(m, id),
        _ => m,
    }
}

/// The libraries after an event: an added movie or series is listed in the
/// current library; a deleted item leaves every list.
pub open spec fn apply_event_libs<T>(v: Seq<(u128, Option<Seq<MediaId>>)>, current: Option<u128>, ev: MediaEventKind<T>)
    -> Seq<(u128, Option<Seq<MediaId>>)>
{
    match ev {
        MediaEventKind::Added(s, p) => if s.id is Movie || s.id is Series { list_in_current(v, current, s.id) } else { v },
        MediaEventKind::Deleted(id) => unlist_everywhere(v, id),
        _ => v,
    }
}

proof fn lemma_first_library(v: Seq<(u128, Option<Seq<MediaId>>)>, id: u128)
    ensures
        -1 <= first_library(v, id) < v.len(),
        first_library(v, id) >= 0 ==> v[first_library(v, id)].0 == id
            && forall|j: int| 0 <= j < first_library(v, id) ==> v[j].0 != id,
        first_library(v, id) < 0 ==> forall|j: int| 0 <= j < v.len() ==> v[j].0 != id,
    decreases v.len(),
{
    if v.len() > 0 && v[0].0 != id {
        lemma_first_library(v.skip(1), id);
        assert forall|j: int| 1 <= j < v.len() implies v[j] == v.skip(1)[j - 1] by {}
    }
}

fn find_library(libs: &Vec<LibraryMedia>, id: u128) -> (r: Option<usize>)
    ensures
        match r {
            Some(i) => i as int == first_library(libs_view(libs@), id),
            None => first_library(libs_view(libs@), id) < 0,
        },
{
    proof {
        lemma_first_library(libs_view(libs@), id);
    }
    let mut i: usize = 0;
    while i < libs.len()
        invariant
            i <= libs@.len(),
            forall|j: int| 0 <= j < i ==> libs@[j].id != id,
        decreases libs@.len() - i,
    {
        if libs[i].id == id {
            proof {
                assert forall|j: int| 0 <= j < libs@.len() implies #[trigger] libs_view(libs@)[j].0 == libs@[j].id by {}
                lemma_first_library(libs_view(libs@), id);
                let f = first_library(libs_view(libs@), id);
                assert(libs_view(libs@)[i as int].0 == id);
                if f < 0 {
                    assert(libs_view(libs@)[i as int].0 != id);
                } else if f < i {
                    assert(libs_view(libs@)[f].0 == libs@[f].id);
                } else if f > i {
                    assert(libs_view(libs@)[i as int].0 != id);
                }
            }
            return Some(i);
        }
        i += 1;
    }
    proof {
        assert forall|j: int| 0 <= j < libs@.len() implies #[trigger] libs_view(libs@)[j].0 == libs@[j].id by {}
        let f = first_library(libs_view(libs@), id);
        if f >= 0 {
            assert(libs_view(libs@)[f].0 == libs@[f].id);
        }
    }
    None
}

fn drop_id(v: Vec<MediaId>, x: MediaId) -> (r: Vec<MediaId>)
    ensures
        r@ == without(v@, x),
{
    let mut out: Vec<MediaId> = Vec::new();
    let mut i: usize = 0;
    while i < v.len()
        invariant
            i <= v@.len(),
            out@ == without(v@.take(i as int), x),
        decreases v@.len() - i,
    {
        proof {
            assert(v@.take(i + 1).drop_last() == v@.take(i as int));
        }
        if v[i] != x {
            out.push(v[i]);
        }
        i += 1;
    }
    proof {
        assert(v@.take(v@.len() as int) == v@);
    }
    out
}

fn list_in_library(libs: &mut Vec<LibraryMedia>, current: Option<u128>, x: MediaId)
    ensures
        libs_view(final(libs)@) == list_in_current(libs_view(old(libs)@), current, x),
{
    let c = match current {
        None => {
            return;
        },
        Some(c) => c,
    };
    let found = find_library(libs, c);
    let i = match found {
        None => {
            return;
        },
        Some(i) => i,
    };
    let ghost pre = libs@;
    proof {
        lemma_first_library(libs_view(pre), c);
        assert(libs_view(pre).len() == pre.len());
    }
    let lib = libs.remove(i);
    let media = match lib.media {
        Some(mut m) => {
            m.push(x);
            m
        },
        None => vec![x],
    };
    let ghost lm = media@;
    libs.insert(i, LibraryMedia { id: c, media: Some(media) });
    proof {
        lemma_first_library(libs_view(pre), c);
        assert(libs_view(libs@) =~= libs_view(pre).update(i as int, (c, Some(lm))));
        assert(lm =~= match libs_view(pre)[i as int].1 { Some(m) => m.push(x), None => seq![x] });
    }
}

fn unlist_in_all(libs: &mut Vec<LibraryMedia>, x: MediaId)
    ensures
        libs_view(final(libs)@) == unlist_everywhere(libs_view(old(libs)@), x),
{
    let ghost pre = libs_view(libs@);
    let n = libs.len();
    let mut i: usize = 0;
    while i < n
        invariant
            n == libs@.len() == pre.len(),
            i <= n,
            forall|j: int| 0 <= j < i ==> libs_view(libs@)[j] == unlist_everywhere(pre, x)[j],
            forall|j: int| i <= j < n ==> libs_view(libs@)[j] == pre[j],
        decreases n - i,
    {
        let ghost before = libs@;
        let lib = libs.remove(i);
        let media = match lib.media {
            Some(m) => Some(drop_id(m, x)),
            None => None,
        };
        libs.insert(i, LibraryMedia { id: lib.id, media });
        proof {
            assert forall|j: int| 0 <= j < n && j != i implies libs@[j] == before[j] by {}
            assert(libs_view(libs@)[i as int] == unlist_everywhere(pre, x)[i as int]);
            assert forall|j: int| 0 <= j <= i implies libs_view(libs@)[j] == unlist_everywhere(pre, x)[j] by {
                if j < i {
                    assert(libs@[j] == before[j]);
                    assert(libs_view(libs@)[j] == libs_view(before)[j]);
                }
            }
            assert forall|j: int| i + 1 <= j < n implies libs_view(libs@)[j] == pre[j] by {
                assert(libs@[j] == before[j]);
                assert(libs_view(libs@)[j] == libs_view(before)[j]);
            }
        }
        i += 1;
    }
    proof {
        assert(libs_view(libs@) =~= unlist_everywhere(pre, x));
    }
}

/// Apply one media event: added and updated items are upserted into the
/// store, deleted ones removed; an added movie or series is listed in the
/// current library (the first library with id `current`, its list started
/// when it has none); a deleted item leaves every library's list. A scan's
/// progress and failure are recorded when it is the scan being followed: a
/// failure stops following it and sets the error message "Scan failed: "
/// followed by the error.
pub fn apply_media_event<T>(
    store: &mut MediaStore<T>,
    libs: &mut Vec<LibraryMedia>,
    scan: &mut ScanState,
    current: Option<u128>,
    ev: MediaEventKind<T>,
)
    requires
        old(store).wf(),
        has_room(old(store).model()),
    ensures
        final(store).wf(),
        final(store).model() == apply_event_model(old(store).model(), ev),
        lists_consistent(old(store).model()) ==> lists_consistent(final(store).model()),
        libs_view(final(libs)@) == apply_event_libs(libs_view(old(libs)@), current, ev),
        match ev {
            MediaEventKind::ScanProgress(id, done, total) => if old(scan).active_scan == Some(id) {
                &&& final(scan).progress == Some((done, total))
                &&& final(scan).active_scan == old(scan).active_scan
                &&& final(scan).scanning == old(scan).scanning
                &&& final(scan).error_message == old(scan).error_message
            } else {
                *final(scan) == *old(scan)
            },
            MediaEventKind::ScanFailed(id, error) => if old(scan).active_scan == Some(id) {
                &&& final(scan).active_scan is None
                &&& !final(scan).scanning
                &&& final(scan).progress == old(scan).progress
                &&& final(scan).error_message matches Some(msg) && msg@ == "Scan failed: "@ + error@
            } else {
                *final(scan) == *old(scan)
            },
            _ => *final(scan) == *old(scan),
        },
{
    match ev {
        MediaEventKind::Added(s, p) => {
            let id = s.id;
            store.upsert(s, p);
            if matches!(id, MediaId::Movie(_)) || matches!(id, MediaId::Series(_)) {
                list_in_library(libs, current, id);
            }
        },
        MediaEventKind::Updated(s, p) => {
            store.upsert(s, p);
        },
        MediaEventKind::Deleted(id) => {
            store.remove(&id);
            unlist_in_all(libs, id);
        },
        MediaEventKind::ScanProgress(id, done, total) => {
            if scan.active_scan == Some(id) {
                scan.progress = Some((done, total));
            }
        },
        MediaEventKind::ScanFailed(id, error) => {
            if scan.active_scan == Some(id) {
                scan.active_scan = None;
                scan.scanning = false;
                scan.error_message = Some(concat("Scan failed: ", error.as_str()));
            }
        },
        _ => {},
    }
}

/// Value of a hexadecimal digit character, if it is one.
pub open spec fn hex_value(c: char) -> Option<nat> {
    if '0' <= c && c <= '9' {
        Some((c as nat - '0' as nat) as nat)
    } else if 'a' <= c && c <= 'f' {
        Some((c as nat - 'a' as nat + 10) as nat)
    } else if 'A' <= c && c <= 'F' {
        Some((c as nat - 'A' as nat + 10) as nat)
    } else {
        None
    }
}

/// Whether position `i` of a UUID's text form holds a hyphen.
pub open spec fn uuid_hyphen_at(i: int) -> bool {
    i == 8 || i == 13 || i == 18 || i == 23
}

/// Whether `s` is a UUID in its hyphenated text form (8-4-4-4-12 hex digits).
pub open spec fn uuid_text(s: Seq<char>) -> bool {
    &&& s.len() == 36
    &&& forall|i: int| 0 <= i < 36 ==> if uuid_hyphen_at(i) { s[i] == '-' } else { hex_value(s[i]) is Some }
}

/// The number the hex digits of `s[..n]` spell, hyphens skipped.
pub open spec fn uuid_value(s: Seq<char>, n: nat) -> nat
    decreases n,
{
    if n == 0 {
        0
    } else if uuid_hyphen_at(n - 1) {
        uuid_value(s, (n - 1) as nat)
    } else {
        uuid_value(s, (n - 1) as nat) * 16 + match hex_value(s[n - 1]) { Some(d) => d, None => 0 }
    }
}

/// The id a deletion event names: `movie:`, `series:`, `season:` or
/// `episode:` followed by the item's UUID; anything else names no item.
pub open spec fn deleted_id_spec(s: Seq<char>) -> Option<MediaId> {
    let tag = if s.len() >= 6 && s.take(6) == "movie:"@ { 6int }
        else if s.len() >= 7 && s.take(7) == "series:"@ { 7int }
        else if s.len() >= 7 && s.take(7) == "season:"@ { 7int }
        else if s.len() >= 8 && s.take(8) == "episode:"@ { 8int }
        else { 0int };
    let rest = s.skip(tag);
    if tag == 0 || !uuid_text(rest) {
        None
    } else {
        let u = uuid_value(rest, 36) as u128;
        Some(
            if s.take(6) == "movie:"@ { MediaId::Movie(u) }
            else if s.take(7) == "series:"@ { MediaId::Series(u) }
            else if s.take(7) == "season:"@ { MediaId::Season(u) }
            else { MediaId::Episode(u) },
        )
    }
}

/// How many hex digits the first `n` characters of a UUID's text form hold.
pub open spec fn digits_before(n: nat) -> nat {
    if n <= 8 { n }
    else if n <= 13 { (n - 1) as nat }
    else if n <= 18 { (n - 2) as nat }
    else if n <= 23 { (n - 3) as nat }
    else { (n - 4) as nat }
}

fn hex_digit(c: char) -> (r: Option<u8>)
    ensures
        match hex_value(c) {
            Some(d) => r == Some(d as u8),
            None => r is None,
        },
{
    if '0' <= c && c <= '9' {
        Some(((c as u32) - ('0' as u32)) as u8)
    } else if 'a' <= c && c <= 'f' {
        Some(((c as u32) - ('a' as u32) + 10) as u8)
    } else if 'A' <= c && c <= 'F' {
        Some(((c as u32) - ('A' as u32) + 10) as u8)
    } else {
        None
    }
}

fn parse_uuid(v: &Vec<char>, start: usize) -> (r: Option<u128>)
    requires
        start <= v@.len(),
    ensures
        match r {
            Some(u) => uuid_text(v@.skip(start as int)) && u == uuid_value(v@.skip(start as int), 36),
            None => !uuid_text(v@.skip(start as int)),
        },
{
    let ghost s = v@.skip(start as int);
    if v.len() - start != 36 {
        return None;
    }
    let end = v.len();
    let mut acc: u128 = 0;
    let mut i: usize = 0;
    proof {
        vstd::arithmetic::power2::lemma2_to64();
        assert(uuid_value(s, 0) == 0);
    }
    while i < 36
        invariant
            i <= 36,
            s == v@.skip(start as int),
            s.len() == 36,
            v@.len() == start + 36,
            end == v@.len(),
            forall|j: int| 0 <= j < i ==> if uuid_hyphen_at(j) { s[j] == '-' } else { hex_value(s[j]) is Some },
            acc == uuid_value(s, i as nat),
            uuid_value(s, i as nat) < vstd::arithmetic::power2::pow2(4 * digits_before(i as nat)),
        decreases 36 - i,
    {
        let c = v[start + i];
        assert(c == s[i as int]);
        if i == 8 || i == 13 || i == 18 || i == 23 {
            if c != '-' {
                return None;
            }
        } else {
            match hex_digit(c) {
                None => {
                    return None;
                },
                Some(d) => {
                    proof {
                        vstd::arithmetic::power2::lemma2_to64();
                        vstd::arithmetic::power2::lemma2_to64_rest();
                        let k = 4 * digits_before(i as nat);
                        assert(k <= 124);
                        vstd::arithmetic::power2::lemma_pow2_adds(k, 4);
                        if k < 124 {
                            vstd::arithmetic::power2::lemma_pow2_strictly_increases(k + 4, 128);
                        }
                        assert(vstd::arithmetic::power2::pow2(128) == 0x100000000000000000000000000000000) by {
                            vstd::arithmetic::power2::lemma_pow2_adds(64, 64);
                        }
                        assert(acc * 16 + d < 0x100000000000000000000000000000000) by (nonlinear_arith)
                            requires
                                acc < vstd::arithmetic::power2::pow2(k),
                                vstd::arithmetic::power2::pow2(k + 4) == vstd::arithmetic::power2::pow2(k) * 16,
                                vstd::arithmetic::power2::pow2(k + 4) <= 0x100000000000000000000000000000000,
                                d < 16,
                        ;
                    }
                    acc = acc * 16 + d as u128;
                },
            }
        }
        proof {
            lemma_uuid_value_bound_step(s, (i + 1) as nat);
        }
        i += 1;
    }
    Some(acc)
}

proof fn lemma_uuid_value_bound_step(s: Seq<char>, n: nat)
    requires
        1 <= n <= 36,
        s.len() == 36,
        forall|j: int| 0 <= j < n ==> if uuid_hyphen_at(j) { s[j] == '-' } else { hex_value(s[j]) is Some },
    ensures
        uuid_value(s, n) < vstd::arithmetic::power2::pow2(4 * digits_before(n)),
    decreases n,
{
    vstd::arithmetic::power2::lemma2_to64();
    if n > 1 {
        lemma_uuid_value_bound_step(s, (n - 1) as nat);
    }
    let prev = uuid_value(s, (n - 1) as nat);
    let kp = 4 * digits_before((n - 1) as nat);
    assert(prev < vstd::arithmetic::power2::pow2(kp));
    if !uuid_hyphen_at(n - 1) {
        let d = match hex_value(s[n - 1]) { Some(d) => d, None => 0 };
        assert(d < 16);
        assert(4 * digits_before(n) == kp + 4);
        vstd::arithmetic::power2::lemma_pow2_adds(kp, 4);
        let p = vstd::arithmetic::power2::pow2(kp);
        assert(prev * 16 + d < p * 16) by (nonlinear_arith)
            requires
                prev < p,
                d < 16,
        ;
    } else {
        assert(4 * digits_before(n) == kp);
    }
}

fn has_tag(v: &Vec<char>, tag: &str) -> (b: bool)
    ensures
        b == (tag@.len() <= v@.len() && v@.take(tag@.len() as int) == tag@),
{
    let t = chars_of(tag);
    if t.len() > v.len() {
        return false;
    }
    let r = matches_at(v, &t, 0);
    proof {
        assert(v@.subrange(0, t@.len() as int) == v@.take(tag@.len() as int));
    }
    r
}

/// The item a deletion event's id string names (see `deleted_id_spec`).
pub fn parse_deleted_id(s: &str) -> (r: Option<MediaId>)
    ensures
        r == deleted_id_spec(s@),
{
    let v = chars_of(s);
    proof {
        reveal_strlit("movie:");
        reveal_strlit("series:");
        reveal_strlit("season:");
        reveal_strlit("episode:");
    }
    let (tag, kind): (usize, u8) = if has_tag(&v, "movie:") {
        (6, 0)
    } else if has_tag(&v, "series:") {
        (7, 1)
    } else if has_tag(&v, "season:") {
        (7, 2)
    } else if has_tag(&v, "episode:") {
        (8, 3)
    } else {
        return None;
    };
    match parse_uuid(&v, tag) {
        None => None,
        Some(u) => {
            proof {
                assert(uuid_value(v@.skip(tag as int), 36) < 0x100000000000000000000000000000000nat) by {
                    lemma_uuid_value_bound_step(v@.skip(tag as int), 36);
                    vstd::arithmetic::power2::lemma_pow2_adds(64, 64);
                    vstd::arithmetic::power2::lemma2_to64();
                    vstd::arithmetic::power2::lemma2_to64_rest();
                }
            }
            if kind == 0 {
                Some(MediaId::Movie(u))
            } else if kind == 1 {
                Some(MediaId::Series(u))
            } else if kind == 2 {
                Some(MediaId::Season(u))
            } else {
                Some(MediaId::Episode(u))
            }
        },
    }
}

} // verus!
