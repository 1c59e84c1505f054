//! Insertion sorts used for eviction order, latency percentiles and the
//! media store's display order.
use vstd::prelude::*;
use vstd::relations::{sorted_by, total_ordering};

verus! {

broadcast use vstd::seq_lib::group_to_multiset_ensures;

/// The usual order on `u64`.
pub open spec fn u64_leq() -> spec_fn(u64, u64) -> bool {
    |a: u64, b: u64| a <= b
}

/// Order on pairs by their first component only.
pub open spec fn first_leq<K>() -> spec_fn((u64, K), (u64, K)) -> bool {
    |a: (u64, K), b: (u64, K)| a.0 <= b.0
}

pub proof fn lemma_u64_leq_total()
    ensures
        total_ordering(u64_leq()),
{
}

/// `data` in ascending order (the unique sorted rearrangement of it).
pub open spec fn sorted_u64_seq(data: Seq<u64>) -> Seq<u64> {
    data.sort_by(u64_leq())
}

/// The values of `data` in ascending order.
pub fn sort_u64(data: &Vec<u64>) -> (r: Vec<u64>)
    ensures
        r@ == sorted_u64_seq(data@),
{
    let mut out: Vec<u64> = Vec::new();
    let mut i: usize = 0;
    while i < data.len()
        invariant
            i <= data@.len(),
            sorted_by(out@, u64_leq()),
            out@.to_multiset() == data@.take(i as int).to_multiset(),
        decreases data@.len() - i,
    {
        let x = data[i];
        let mut p: usize = 0;
        while p < out.len() && out[p] <= x
            invariant
                p <= out@.len(),
                forall|t: int| 0 <= t < p ==> out@[t] <= x,
            decreases out@.len() - p,
        {
            p += 1;
        }
        assert(forall|t: int| p <= t < out@.len() ==> out@[t] > x) by {
            if p < out@.len() {
                assert(out@[p as int] > x);
                assert forall|t: int| p <= t < out@.len() implies out@[t] > x by {
                    if t > p {
                        assert(u64_leq()(out@[p as int], out@[t]));
                    }
                }
            }
        }
        let ghost before = out@;
        out.insert(p, x);
        proof {
            assert(out@ == before.insert(p as int, x));
            vstd::seq_lib::to_multiset_insert(before, p as int, x);
            assert(data@.take(i + 1) == data@.take(i as int).push(x));
            vstd::seq_lib::to_multiset_build(data@.take(i as int), x);
            assert forall|a: int, b: int| 0 <= a < b < out@.len() implies #[trigger] u64_leq()(out@[a], out@[b]) by {
                if b < p {
                    assert(u64_leq()(before[a], before[b]));
                } else if b == p {
                } else if a < p {
                    assert(before[a] <= x);
                } else if a == p {
                } else {
                    assert(u64_leq()(before[a - 1], before[b - 1]));
                }
            }
        }
        i += 1;
    }
    proof {
        assert(data@.take(data@.len() as int) == data@);
        lemma_u64_leq_total();
        data@.lemma_sort_by_ensures(u64_leq());
        vstd::seq_lib::lemma_sorted_unique(out@, data@.sort_by(u64_leq()), u64_leq());
    }
    out
}

/// The pairs of `items` ordered by their first component; pairs with equal
/// first components keep their relative order.
pub fn sort_by_first<K: Copy>(items: &Vec<(u64, K)>) -> (r: Vec<(u64, K)>)
    ensures
        sorted_by(r@, first_leq()),
        r@.to_multiset() == items@.to_multiset(),
        r@.len() == items@.len(),
        forall|x: (u64, K)| r@.contains(x) <==> items@.contains(x),
        items@.no_duplicates() ==> r@.no_duplicates(),
{
    let mut out: Vec<(u64, K)> = Vec::new();
    let mut i: usize = 0;
    while i < items.len()
        invariant
            i <= items@.len(),
            sorted_by(out@, first_leq()),
            out@.to_multiset() == items@.take(i as int).to_multiset(),
        decreases items@.len() - i,
    {
        let x = items[i];
        let mut p: usize = 0;
        while p < out.len() && out[p].0 <= x.0
            invariant
                p <= out@.len(),
                forall|t: int| 0 <= t < p ==> out@[t].0 <= x.0,
            decreases out@.len() - p,
        {
            p += 1;
        }
        assert(forall|t: int| p <= t < out@.len() ==> out@[t].0 > x.0) by {
            if p < out@.len() {
                assert(out@[p as int].0 > x.0);
                assert forall|t: int| p <= t < out@.len() implies out@[t].0 > x.0 by {
                    if t > p {
                        assert(first_leq()(out@[p as int], out@[t]));
                    }
                }
            }
        }
        let ghost before = out@;
        out.insert(p, x);
        proof {
            assert(out@ == before.insert(p as int, x));
            vstd::seq_lib::to_multiset_insert(before, p as int, x);
            assert(items@.take(i + 1) == items@.take(i as int).push(x));
            vstd::seq_lib::to_multiset_build(items@.take(i as int), x);
            assert forall|a: int, b: int| 0 <= a < b < out@.len() implies #[trigger] first_leq()(out@[a], out@[b]) by {
                if b < p {
                    assert(first_leq()(before[a], before[b]));
                } else if b == p {
                } else if a < p {
                    assert(before[a].0 <= x.0);
                } else if a == p {
                } else {
                    assert(first_leq()(before[a - 1], before[b - 1]));
                }
            }
        }
        i += 1;
    }
    proof {
        assert(items@.take(items@.len() as int) == items@);
        assert(out@.to_multiset().len() == items@.to_multiset().len());
        assert forall|x: (u64, K)| out@.contains(x) <==> items@.contains(x) by {
            assert(out@.to_multiset().count(x) == items@.to_multiset().count(x));
        }
        if items@.no_duplicates() {
            items@.lemma_multiset_has_no_duplicates();
            assert forall|x: (u64, K)| out@.to_multiset().contains(x) implies out@.to_multiset().count(x) == 1 by {
                assert(items@.to_multiset().contains(x));
            }
            out@.lemma_multiset_has_no_duplicates_conv();
        }
    }
    out
}

/// Order on (key, id) pairs: by key, then by id.
pub open spec fn key_leq() -> spec_fn((u64, u128), (u64, u128)) -> bool {
    |a: (u64, u128), b: (u64, u128)| a.0 < b.0 || (a.0 == b.0 && a.1 <= b.1)
}

pub proof fn lemma_key_leq_total()
    ensures
        total_ordering(key_leq()),
{
    assert(vstd::relations::reflexive(key_leq()));
    assert(vstd::relations::antisymmetric(key_leq())) by {
        assert forall|x: (u64, u128), y: (u64, u128)| #[trigger] key_leq()(x, y) && #[trigger] key_leq()(y, x) implies x == y by {
            assert(x.0 == y.0 && x.1 == y.1);
        }
    }
    assert(vstd::relations::transitive(key_leq()));
    assert(vstd::relations::strongly_connected(key_leq()));
}

fn key_le(a: (u64, u128), b: (u64, u128)) -> (r: bool)
    ensures
        r == key_leq()(a, b),
{
    a.0 < b.0 || (a.0 == b.0 && a.1 <= b.1)
}

/// `items` sorted by key, ties broken by id.
pub fn sort_keyed(items: &Vec<(u64, u128)>) -> (r: Vec<(u64, u128)>)
    ensures
        r@ == items@.sort_by(key_leq()),
{
    proof {
        lemma_key_leq_total();
    }
    let mut out: Vec<(u64, u128)> = Vec::new();
    let mut i: usize = 0;
    while i < items.len()
        invariant
            i <= items@.len(),
            total_ordering(key_leq()),
            sorted_by(out@, key_leq()),
            out@.to_multiset() == items@.take(i as int).to_multiset(),
        decreases items@.len() - i,
    {
        let x = items[i];
        let mut p: usize = 0;
        while p < out.len() && key_le(out[p], x)
            invariant
                p <= out@.len(),
                forall|t: int| 0 <= t < p ==> #[trigger] key_leq()(out@[t], x),
            decreases out@.len() - p,
        {
            p += 1;
        }
        assert(forall|t: int| p <= t < out@.len() ==> #[trigger] key_leq()(x, out@[t])) by {
            if p < out@.len() {
                assert(!key_leq()(out@[p as int], x));
                assert forall|t: int| p <= t < out@.len() implies #[trigger] key_leq()(x, out@[t]) by {
                    if t > p {
                        assert(key_leq()(out@[p as int], out@[t]));
                    }
                }
            }
        }
        let ghost before = out@;
        out.insert(p, x);
        proof {
            assert(out@ == before.insert(p as int, x));
            vstd::seq_lib::to_multiset_insert(before, p as int, x);
            assert(items@.take(i + 1) == items@.take(i as int).push(x));
            vstd::seq_lib::to_multiset_build(items@.take(i as int), x);
            assert forall|a: int, b: int| 0 <= a < b < out@.len() implies #[trigger] key_leq()(out@[a], out@[b]) by {
                if b < p {
                    assert(key_leq()(before[a], before[b]));
                } else if b == p {
                    assert(key_leq()(before[a], x));
                } else if a < p {
                    assert(key_leq()(before[a], x));
                    assert(key_leq()(x, before[b - 1]));
                } else if a == p {
                    assert(key_leq()(x, before[b - 1]));
                } else {
                    assert(key_leq()(before[a - 1], before[b - 1]));
                }
            }
        }
        i += 1;
    }
    proof {
        assert(items@.take(items@.len() as int) == items@);
        items@.lemma_sort_by_ensures(key_leq());
        vstd::seq_lib::lemma_sorted_unique(out@, items@.sort_by(key_leq()), key_leq());
    }
    out
}

} // verus!
