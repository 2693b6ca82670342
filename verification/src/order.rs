//! Putting things in order, the newest first.
use vstd::prelude::*;
use vstd::relations::*;

verus! {

/// Something with a time.
pub trait Timed: Sized {
    /// The time.
    spec fn time(&self) -> u128;

    /// The time.
    fn time_ms(&self) -> (t: u128)
        ensures
            t == self.time(),
    ;
}

/// Whether the item at `i` goes before the item at `j`: it is newer, or as new and was listed
/// earlier.
pub open spec fn goes_before<V>(items: Seq<V>, time: spec_fn(V) -> u128, i: int, j: int) -> bool {
    ||| time(items[i]) > time(items[j])
    ||| time(items[i]) == time(items[j]) && i < j
}

/// Whether `after` holds the items of `before` with the newest first, where `places` says for each
/// one where it stood.
pub open spec fn newest_order<V>(
    before: Seq<V>,
    after: Seq<V>,
    time: spec_fn(V) -> u128,
    places: Seq<int>,
) -> bool {
    &&& after.len() == before.len()
    &&& places.len() == before.len()
    &&& forall|k: int|
        0 <= k < after.len() ==> 0 <= #[trigger] places[k] < before.len() && after[k]
            == before[places[k]]
    &&& forall|k: int, l: int|
        0 <= k < l < after.len() ==> goes_before(before, time, #[trigger] places[k], #[trigger] places[l])
}

/// Whether `after` holds the items of `before` with the newest first, and equally new ones in the
/// order in which they stood.
pub open spec fn newest_first<V>(before: Seq<V>, after: Seq<V>, time: spec_fn(V) -> u128) -> bool {
    exists|places: Seq<int>| newest_order(before, after, time, places)
}

/// Sorts items by their time, the newest first; equally new ones keep their order.
pub fn sort_newest_first<T: Timed>(items: Vec<T>) -> (r: Vec<T>)
    ensures
        newest_first(items@, r@, |t: T| t.time()),
{
    let ghost all = items@;
    let ghost time = |t: T| t.time();
    let mut rest = items;
    let mut out: Vec<T> = Vec::new();
    let ghost mut places: Seq<int> = Seq::empty();
    assert(all.take(all.len() as int) =~= all);
    while rest.len() > 0
        invariant
            time == (|t: T| t.time()),
            rest.len() <= all.len(),
            rest@ == all.take(rest.len() as int),
            out.len() + rest.len() == all.len(),
            places.len() == out.len(),
            forall|k: int|
                0 <= k < out.len() ==> rest.len() <= #[trigger] places[k] < all.len() && out@[k]
                    == all[places[k]],
            forall|k: int, l: int|
                0 <= k < l < out.len() ==> goes_before(
                    all,
                    time,
                    #[trigger] places[k],
                    #[trigger] places[l],
                ),
        decreases rest.len(),
    {
        let ghost old_rest = rest@;
        let item = rest.pop().unwrap();
        let ghost at = rest.len() as int;
        assert(rest@ =~= all.take(at));
        let t: u128 = item.time_ms();
        let mut pos: usize = 0;
        while pos < out.len() && out[pos].time_ms() > t
            invariant
                pos <= out.len(),
                forall|k: int| 0 <= k < pos ==> (#[trigger] out@[k]).time() > t,
            decreases out.len() - pos,
        {
            pos += 1;
        }
        let ghost old_out = out@;
        let ghost old_places = places;
        out.insert(pos, item);
        proof {
            places = places.insert(pos as int, at);
            assert forall|k: int| 0 <= k < out.len() implies at <= #[trigger] places[k] < all.len()
                && out@[k] == all[places[k]] by {
                if k > pos {
                    assert(places[k] == old_places[k - 1]);
                    assert(out@[k] == old_out[k - 1]);
                } else if k < pos {
                    assert(places[k] == old_places[k]);
                    assert(out@[k] == old_out[k]);
                }
            }
            assert forall|k: int, l: int| 0 <= k < l < out.len() implies goes_before(
                all,
                time,
                #[trigger] places[k],
                #[trigger] places[l],
            ) by {
                let ko = if k > pos { k - 1 } else { k };
                let lo = if l > pos { l - 1 } else { l };
                if k != pos && l != pos {
                    assert(places[k] == old_places[ko]);
                    assert(places[l] == old_places[lo]);
                } else if l == pos {
                    assert(places[k] == old_places[ko]);
                    assert(old_out[ko].time() > t);
                } else {
                    assert(places[l] == old_places[lo]);
                    assert(time(old_out[pos as int]) <= t);
                    if lo > pos {
                        assert(goes_before(all, time, old_places[pos as int], old_places[lo]));
                    }
                    assert(time(old_out[lo]) <= t);
                }
            }
        }
    }
    assert(newest_order(all, out@, time, places));
    out
}

/// What is in order stays so when only a part of each item is looked at, as long as the time is in
/// that part.
pub proof fn lemma_newest_first_seen<T, V>(
    before: Seq<T>,
    after: Seq<T>,
    time: spec_fn(T) -> u128,
    seen: spec_fn(T) -> V,
    seen_time: spec_fn(V) -> u128,
)
    requires
        newest_first(before, after, time),
        forall|t: T| #[trigger] seen_time(seen(t)) == time(t),
    ensures
        newest_first(before.map_values(seen), after.map_values(seen), seen_time),
{
    let places = choose|places: Seq<int>| newest_order(before, after, time, places);
    let seen_before = before.map_values(seen);
    assert forall|k: int, l: int| 0 <= k < l < after.len() implies goes_before(
        seen_before,
        seen_time,
        #[trigger] places[k],
        #[trigger] places[l],
    ) by {
        assert(goes_before(before, time, places[k], places[l]));
        assert(seen_time(seen(before[places[k]])) == time(before[places[k]]));
        assert(seen_time(seen(before[places[l]])) == time(before[places[l]]));
    }
    assert(newest_order(seen_before, after.map_values(seen), seen_time, places));
}

/// Sorting loses nothing: every item is found again, at exactly one place.
pub proof fn law_sorting_keeps_every_item<V>(
    before: Seq<V>,
    after: Seq<V>,
    time: spec_fn(V) -> u128,
    places: Seq<int>,
)
    requires
        newest_order(before, after, time, places),
    ensures
        places.no_duplicates(),
        forall|i: int| 0 <= i < before.len() ==> #[trigger] places.contains(i),
{
    assert(places.no_duplicates()) by {
        assert forall|k: int, l: int|
            0 <= k < places.len() && 0 <= l < places.len() && k != l implies places[k]
            != places[l] by {
            if k < l {
                assert(goes_before(before, time, places[k], places[l]));
            } else {
                assert(goes_before(before, time, places[l], places[k]));
            }
        }
    }
    let n = before.len() as int;
    let range = vstd::set_lib::set_int_range(0, n);
    let set = places.to_set();
    places.unique_seq_to_set();
    vstd::set_lib::lemma_int_range(0, n);
    assert(set.subset_of(range));
    vstd::set_lib::lemma_subset_equality(set, range);
    assert forall|i: int| 0 <= i < n implies #[trigger] places.contains(i) by {
        assert(range.contains(i));
        assert(set.contains(i));
    }
}

/// There is one way to put items in this order.
pub proof fn law_sorting_is_unique<V>(
    before: Seq<V>,
    a: Seq<V>,
    b: Seq<V>,
    time: spec_fn(V) -> u128,
)
    requires
        newest_first(before, a, time),
        newest_first(before, b, time),
    ensures
        a == b,
{
    let p = choose|places: Seq<int>| newest_order(before, a, time, places);
    let q = choose|places: Seq<int>| newest_order(before, b, time, places);
    law_sorting_keeps_every_item(before, a, time, p);
    law_sorting_keeps_every_item(before, b, time, q);
    let leq = |i: int, j: int| i == j || goes_before(before, time, i, j);
    assert(total_ordering(leq));
    assert(sorted_by(p, leq));
    assert(sorted_by(q, leq));
    assert(p.to_multiset() =~= q.to_multiset()) by {
        broadcast use vstd::seq_lib::group_to_multiset_ensures;

        p.lemma_multiset_has_no_duplicates();
        q.lemma_multiset_has_no_duplicates();
        assert forall|v: int| p.to_multiset().count(v) == q.to_multiset().count(v) by {
            assert(p.contains(v) == q.contains(v));
            assert(p.to_multiset().contains(v) == p.contains(v));
            assert(q.to_multiset().contains(v) == q.contains(v));
        }
    }
    vstd::seq_lib::lemma_sorted_unique(p, q, leq);
    assert forall|k: int| 0 <= k < a.len() implies a[k] == b[k] by {
        assert(a[k] == before[p[k]] && b[k] == before[q[k]]);
    }
    assert(a =~= b);
}

/// What is in order has newer items before older ones, and equally new ones in the order in which they
/// stood before.
pub proof fn law_newer_goes_before_older<V>(
    before: Seq<V>,
    after: Seq<V>,
    time: spec_fn(V) -> u128,
    places: Seq<int>,
    k: int,
    l: int,
)
    requires
        newest_order(before, after, time, places),
        0 <= k < l < after.len(),
    ensures
        time(after[k]) >= time(after[l]),
        time(after[k]) == time(after[l]) ==> places[k] < places[l],
        after.len() == before.len(),
        after[k] == before[places[k]],
        after[l] == before[places[l]],
{
    assert(goes_before(before, time, places[k], places[l]));
}

} // verus!
