//! What it means for a sequence to be another one sorted, with items of
//! equal rank left in the order in which they came.

use vstd::prelude::*;

verus! {

/// Whether `le` ranks all values: any two can be compared, and the
/// comparison is reflexive and transitive.
pub open spec fn is_ranking<T>(le: spec_fn(T, T) -> bool) -> bool {
    &&& forall|x: T, y: T| #[trigger] le(x, y) || le(y, x)
    &&& forall|x: T, y: T, z: T| #[trigger] le(x, y) && #[trigger] le(y, z) ==> le(x, z)
}

/// Whether no item of `s` comes before one of lower rank.
pub open spec fn ascending<T>(s: Seq<T>, le: spec_fn(T, T) -> bool) -> bool {
    forall|i: int, j: int| 0 <= i < j < s.len() ==> le(#[trigger] s[i], #[trigger] s[j])
}

/// The items of `s` that are of the same rank as `x`, in the order in which
/// `s` holds them.
pub open spec fn peers<T>(s: Seq<T>, le: spec_fn(T, T) -> bool, x: T) -> Seq<T>
    decreases s.len(),
{
    if s.len() == 0 {
        Seq::empty()
    } else if le(x, s.last()) && le(s.last(), x) {
        peers(s.drop_last(), le, x).push(s.last())
    } else {
        peers(s.drop_last(), le, x)
    }
}

/// Whether `sorted` is `s` put in ascending order by a stable sort: at each
/// rank it holds the items that `s` holds, in the order of `s`.
pub open spec fn is_stable_sort<T>(sorted: Seq<T>, s: Seq<T>, le: spec_fn(T, T) -> bool) -> bool {
    &&& ascending(sorted, le)
    &&& forall|x: T| #[trigger] peers(sorted, le, x) == peers(s, le, x)
}

/// Every item among the peers of `x` in `s` is an item of `s`.
pub proof fn lemma_peers_are_items<T>(s: Seq<T>, le: spec_fn(T, T) -> bool, x: T, k: int)
    requires
        0 <= k < peers(s, le, x).len(),
    ensures
        s.contains(peers(s, le, x)[k]),
        le(x, peers(s, le, x)[k]),
        le(peers(s, le, x)[k], x),
    decreases s.len(),
{
    let rest = peers(s.drop_last(), le, x);
    if le(x, s.last()) && le(s.last(), x) && k == rest.len() {
        assert(s[s.len() - 1] == s.last());
    } else {
        lemma_peers_are_items(s.drop_last(), le, x, k);
        let found = choose|i: int| 0 <= i < s.drop_last().len() && s.drop_last()[i] == rest[k];
        assert(s[found] == rest[k]);
    }
}

/// Every item of `s` is among its own peers in `s`.
pub proof fn lemma_items_are_peers<T>(s: Seq<T>, le: spec_fn(T, T) -> bool, i: int)
    requires
        is_ranking(le),
        0 <= i < s.len(),
    ensures
        peers(s, le, s[i]).contains(s[i]),
    decreases s.len(),
{
    let x = s[i];
    assert(le(x, x));
    if i == s.len() - 1 {
        let all = peers(s, le, x);
        assert(all[all.len() - 1] == x);
    } else {
        lemma_items_are_peers(s.drop_last(), le, i);
        let rest = peers(s.drop_last(), le, x);
        let found = choose|k: int| 0 <= k < rest.len() && rest[k] == x;
        assert(peers(s, le, x)[found] == x);
    }
}

/// A stable sort neither adds an item nor loses one.
pub proof fn lemma_stable_sort_keeps_items<T>(
    sorted: Seq<T>,
    s: Seq<T>,
    le: spec_fn(T, T) -> bool,
    x: T,
)
    requires
        is_ranking(le),
        is_stable_sort(sorted, s, le),
    ensures
        sorted.contains(x) <==> s.contains(x),
{
    assert(peers(sorted, le, x) == peers(s, le, x));
    if sorted.contains(x) {
        let i = choose|i: int| 0 <= i < sorted.len() && sorted[i] == x;
        lemma_items_are_peers(sorted, le, i);
        let k = choose|k: int| 0 <= k < peers(sorted, le, x).len() && peers(sorted, le, x)[k] == x;
        lemma_peers_are_items(s, le, x, k);
    }
    if s.contains(x) {
        let i = choose|i: int| 0 <= i < s.len() && s[i] == x;
        lemma_items_are_peers(s, le, i);
        let k = choose|k: int| 0 <= k < peers(s, le, x).len() && peers(s, le, x)[k] == x;
        lemma_peers_are_items(sorted, le, x, k);
    }
}

/// Two ascending sequences that hold the same items in the same order at
/// each rank are one sequence.
pub proof fn lemma_ascending_with_same_peers<T>(a: Seq<T>, b: Seq<T>, le: spec_fn(T, T) -> bool)
    requires
        is_ranking(le),
        ascending(a, le),
        ascending(b, le),
        forall|x: T| #[trigger] peers(a, le, x) == peers(b, le, x),
    ensures
        a == b,
    decreases a.len(),
{
    if a.len() == 0 {
        if b.len() > 0 {
            lemma_items_are_peers(b, le, 0);
            assert(peers(a, le, b[0]) == peers(b, le, b[0]));
        }
        assert(a =~= b);
    } else {
        let x = a.last();
        assert(le(x, x));
        lemma_items_are_peers(a, le, a.len() - 1);
        assert(peers(a, le, x) == peers(b, le, x));
        let k = choose|k: int| 0 <= k < peers(a, le, x).len() && peers(a, le, x)[k] == x;
        lemma_peers_are_items(b, le, x, k);
        let at = choose|i: int| 0 <= i < b.len() && b[i] == x;
        let z = b.last();
        assert(le(z, z));
        assert(le(x, z)) by {
            if at < b.len() - 1 {
                assert(le(b[at], b[b.len() - 1]));
            }
        }
        lemma_items_are_peers(b, le, b.len() - 1);
        assert(peers(a, le, z) == peers(b, le, z));
        let kz = choose|k: int| 0 <= k < peers(b, le, z).len() && peers(b, le, z)[k] == z;
        lemma_peers_are_items(a, le, z, kz);
        let az = choose|i: int| 0 <= i < a.len() && a[i] == z;
        assert(le(z, x)) by {
            if az < a.len() - 1 {
                assert(le(a[az], a[a.len() - 1]));
            }
        }
        assert(peers(a, le, x).last() == x);
        assert(peers(b, le, x).last() == z);
        assert(x == z);
        let short_a = a.drop_last();
        let short_b = b.drop_last();
        assert forall|w: T| #[trigger] peers(short_a, le, w) == peers(short_b, le, w) by {
            assert(peers(a, le, w) == peers(b, le, w));
            if le(w, x) && le(x, w) {
                assert(peers(a, le, w).drop_last() =~= peers(short_a, le, w));
                assert(peers(b, le, w).drop_last() =~= peers(short_b, le, w));
            }
        }
        assert(ascending(short_a, le)) by {
            assert forall|i: int, j: int| 0 <= i < j < short_a.len() implies le(
                #[trigger] short_a[i],
                #[trigger] short_a[j],
            ) by {
                assert(le(a[i], a[j]));
            }
        }
        assert(ascending(short_b, le)) by {
            assert forall|i: int, j: int| 0 <= i < j < short_b.len() implies le(
                #[trigger] short_b[i],
                #[trigger] short_b[j],
            ) by {
                assert(le(b[i], b[j]));
            }
        }
        lemma_ascending_with_same_peers(short_a, short_b, le);
        assert(a =~= short_a.push(x));
        assert(b =~= short_b.push(z));
    }
}

/// A sequence has one stable sort only.
pub proof fn lemma_stable_sort_is_unique<T>(
    a: Seq<T>,
    b: Seq<T>,
    s: Seq<T>,
    le: spec_fn(T, T) -> bool,
)
    requires
        is_ranking(le),
        is_stable_sort(a, s, le),
        is_stable_sort(b, s, le),
    ensures
        a == b,
{
    assert forall|x: T| #[trigger] peers(a, le, x) == peers(b, le, x) by {
        assert(peers(a, le, x) == peers(s, le, x));
        assert(peers(b, le, x) == peers(s, le, x));
    }
    lemma_ascending_with_same_peers(a, b, le);
}

/// `a` with `x` put behind its last item that ranks no higher than `x`.
pub open spec fn with_item<T>(a: Seq<T>, x: T, le: spec_fn(T, T) -> bool) -> Seq<T>
    decreases a.len(),
{
    if a.len() == 0 {
        seq![x]
    } else if le(a.last(), x) {
        a.push(x)
    } else {
        with_item(a.drop_last(), x, le).push(a.last())
    }
}

/// The items of `s` put in one after the other, each behind those that rank
/// no higher.
pub open spec fn put_in_order<T>(s: Seq<T>, le: spec_fn(T, T) -> bool) -> Seq<T>
    decreases s.len(),
{
    if s.len() == 0 {
        Seq::empty()
    } else {
        with_item(put_in_order(s.drop_last(), le), s.last(), le)
    }
}

/// Putting an item into an ascending sequence leaves it ascending, makes it
/// one longer, adds the item to it, and puts the item behind its peers.
pub proof fn lemma_with_item<T>(a: Seq<T>, x: T, le: spec_fn(T, T) -> bool)
    requires
        is_ranking(le),
        ascending(a, le),
    ensures
        ascending(with_item(a, x, le), le),
        with_item(a, x, le).len() == a.len() + 1,
        with_item(a, x, le).to_multiset() == a.to_multiset().insert(x),
        forall|y: T|
            #[trigger] peers(with_item(a, x, le), le, y) == if le(y, x) && le(x, y) {
                peers(a, le, y).push(x)
            } else {
                peers(a, le, y)
            },
        forall|k: int|
            0 <= k < with_item(a, x, le).len() ==> #[trigger] with_item(a, x, le)[k] == x
                || a.contains(with_item(a, x, le)[k]),
    decreases a.len(),
{
    broadcast use vstd::seq_lib::group_to_multiset_ensures;

    let r = with_item(a, x, le);
    assert(le(x, x));
    if a.len() == 0 {
        assert(a =~= Seq::empty());
        assert(r.drop_last() =~= a);
        assert(ascending(r, le));
        assert forall|y: T|
            #[trigger] peers(r, le, y) == if le(y, x) && le(x, y) {
                peers(a, le, y).push(x)
            } else {
                peers(a, le, y)
            } by {
            assert(r.last() == x);
        }
    } else if le(a.last(), x) {
        assert(r.drop_last() =~= a);
        assert(r.last() == x);
        assert forall|i: int, j: int| 0 <= i < j < r.len() implies le(
            #[trigger] r[i],
            #[trigger] r[j],
        ) by {
            if j == r.len() - 1 {
                if i < a.len() - 1 {
                    assert(le(a[i], a[a.len() - 1]));
                }
                assert(le(a[i], a.last()));
            } else {
                assert(le(a[i], a[j]));
            }
        }
        assert forall|k: int| 0 <= k < r.len() implies #[trigger] r[k] == x || a.contains(
            r[k],
        ) by {
            if k < a.len() {
                assert(a[k] == r[k]);
            }
        }
    } else {
        let short = a.drop_last();
        let last = a.last();
        assert(ascending(short, le)) by {
            assert forall|i: int, j: int| 0 <= i < j < short.len() implies le(
                #[trigger] short[i],
                #[trigger] short[j],
            ) by {
                assert(le(a[i], a[j]));
            }
        }
        lemma_with_item(short, x, le);
        let inner = with_item(short, x, le);
        assert(r.drop_last() =~= inner);
        assert(r.last() == last);
        assert(le(x, last));
        assert forall|i: int, j: int| 0 <= i < j < r.len() implies le(
            #[trigger] r[i],
            #[trigger] r[j],
        ) by {
            if j == r.len() - 1 {
                assert(inner[i] == x || short.contains(inner[i]));
                if inner[i] != x {
                    let at = choose|m: int| 0 <= m < short.len() && short[m] == inner[i];
                    assert(le(a[at], a[a.len() - 1]));
                }
            } else {
                assert(le(inner[i], inner[j]));
            }
        }
        assert(a =~= short.push(last));
        assert(r.to_multiset() =~= a.to_multiset().insert(x));
        assert forall|y: T|
            #[trigger] peers(r, le, y) == if le(y, x) && le(x, y) {
                peers(a, le, y).push(x)
            } else {
                peers(a, le, y)
            } by {
            assert(peers(inner, le, y) == if le(y, x) && le(x, y) {
                peers(short, le, y).push(x)
            } else {
                peers(short, le, y)
            });
            if le(y, x) && le(x, y) && le(y, last) && le(last, y) {
                assert(le(last, x));
            }
        }
        assert forall|k: int| 0 <= k < r.len() implies #[trigger] r[k] == x || a.contains(
            r[k],
        ) by {
            if k == r.len() - 1 {
                assert(a[a.len() - 1] == r[k]);
            } else {
                assert(inner[k] == x || short.contains(inner[k]));
                if inner[k] != x {
                    let at = choose|m: int| 0 <= m < short.len() && short[m] == inner[k];
                    assert(a[at] == r[k]);
                }
            }
        }
    }
}

/// Every sequence has a stable sort; it is as long as the sequence and
/// holds the same items as often.
pub proof fn lemma_put_in_order<T>(s: Seq<T>, le: spec_fn(T, T) -> bool)
    requires
        is_ranking(le),
    ensures
        is_stable_sort(put_in_order(s, le), s, le),
        put_in_order(s, le).len() == s.len(),
        put_in_order(s, le).to_multiset() == s.to_multiset(),
    decreases s.len(),
{
    broadcast use vstd::seq_lib::group_to_multiset_ensures;

    if s.len() == 0 {
        assert(s =~= Seq::empty());
    } else {
        let short = s.drop_last();
        lemma_put_in_order(short, le);
        lemma_with_item(put_in_order(short, le), s.last(), le);
        assert(s =~= short.push(s.last()));
        assert forall|x: T| #[trigger]
            peers(put_in_order(s, le), le, x) == peers(s, le, x) by {
            assert(peers(put_in_order(short, le), le, x) == peers(short, le, x));
        }
    }
}

/// `s` put in ascending order by a stable sort.
pub open spec fn stable_sorted<T>(s: Seq<T>, le: spec_fn(T, T) -> bool) -> Seq<T> {
    choose|sorted: Seq<T>| is_stable_sort(sorted, s, le)
}

/// Whatever is a stable sort of `s` is `stable_sorted` of `s`.
pub proof fn lemma_stable_sorted<T>(sorted: Seq<T>, s: Seq<T>, le: spec_fn(T, T) -> bool)
    requires
        is_ranking(le),
        is_stable_sort(sorted, s, le),
    ensures
        sorted == stable_sorted(s, le),
{
    lemma_stable_sort_is_unique(sorted, stable_sorted(s, le), s, le);
}

/// `stable_sorted` of `s` is a stable sort of `s`: it is in ascending
/// order, as long as `s`, and holds the same items as often, those of
/// equal rank in the order of `s`.
pub proof fn lemma_stable_sorted_sorts<T>(s: Seq<T>, le: spec_fn(T, T) -> bool)
    requires
        is_ranking(le),
    ensures
        is_stable_sort(stable_sorted(s, le), s, le),
        stable_sorted(s, le).len() == s.len(),
        stable_sorted(s, le).to_multiset() == s.to_multiset(),
{
    lemma_put_in_order(s, le);
    lemma_stable_sorted(put_in_order(s, le), s, le);
}


/// Whether no two items of `s` are of one rank.
pub open spec fn ranks_differ<T>(s: Seq<T>, le: spec_fn(T, T) -> bool) -> bool {
    forall|i: int, j: int|
        0 <= i < j < s.len() ==> !(le(#[trigger] s[i], #[trigger] s[j]) && le(s[j], s[i]))
}

/// An item of `s` that is of the same rank as `x` is among the peers of `x`.
pub proof fn lemma_peers_hold_items<T>(s: Seq<T>, le: spec_fn(T, T) -> bool, x: T, i: int)
    requires
        0 <= i < s.len(),
        le(x, s[i]),
        le(s[i], x),
    ensures
        peers(s, le, x).contains(s[i]),
    decreases s.len(),
{
    if i == s.len() - 1 {
        let all = peers(s, le, x);
        assert(all[all.len() - 1] == s[i]);
    } else {
        lemma_peers_hold_items(s.drop_last(), le, x, i);
        let rest = peers(s.drop_last(), le, x);
        let found = choose|k: int| 0 <= k < rest.len() && rest[k] == s[i];
        assert(peers(s, le, x)[found] == s[i]);
    }
}

/// Where no two items of `s` are of one rank, an item has one peer at most.
pub proof fn lemma_peers_of_differing_ranks<T>(s: Seq<T>, le: spec_fn(T, T) -> bool, x: T)
    requires
        is_ranking(le),
        ranks_differ(s, le),
    ensures
        peers(s, le, x).len() <= 1,
    decreases s.len(),
{
    if s.len() > 0 {
        let short = s.drop_last();
        assert(ranks_differ(short, le)) by {
            assert forall|i: int, j: int| 0 <= i < j < short.len() implies !(le(
                #[trigger] short[i],
                #[trigger] short[j],
            ) && le(short[j], short[i])) by {
                assert(!(le(s[i], s[j]) && le(s[j], s[i])));
            }
        }
        lemma_peers_of_differing_ranks(short, le, x);
        let rest = peers(short, le, x);
        if le(x, s.last()) && le(s.last(), x) && rest.len() > 0 {
            lemma_peers_are_items(short, le, x, 0);
            let at = choose|i: int| 0 <= i < short.len() && short[i] == rest[0];
            assert(le(s[at], s[s.len() - 1]) && le(s[s.len() - 1], s[at]));
        }
    }
}

/// Two sequences that hold the same items, neither of them two of one
/// rank, are sorted into one sequence: the order in which the items came
/// makes no difference.
pub proof fn lemma_order_of_items_is_immaterial<T>(
    s1: Seq<T>,
    s2: Seq<T>,
    le: spec_fn(T, T) -> bool,
)
    requires
        is_ranking(le),
        ranks_differ(s1, le),
        ranks_differ(s2, le),
        forall|x: T| s1.contains(x) <==> s2.contains(x),
    ensures
        stable_sorted(s1, le) == stable_sorted(s2, le),
{
    let a1 = stable_sorted(s1, le);
    let a2 = stable_sorted(s2, le);
    lemma_stable_sorted_sorts(s1, le);
    lemma_stable_sorted_sorts(s2, le);
    assert forall|x: T| #[trigger] peers(a1, le, x) == peers(a2, le, x) by {
        let p1 = peers(s1, le, x);
        let p2 = peers(s2, le, x);
        assert(peers(a1, le, x) == p1);
        assert(peers(a2, le, x) == p2);
        lemma_peers_of_differing_ranks(s1, le, x);
        lemma_peers_of_differing_ranks(s2, le, x);
        if p1.len() > 0 {
            lemma_peers_are_items(s1, le, x, 0);
            assert(s2.contains(p1[0]));
            let at = choose|i: int| 0 <= i < s2.len() && s2[i] == p1[0];
            lemma_peers_hold_items(s2, le, x, at);
            assert(p2[0] == p1[0]);
            assert(p1 =~= p2);
        } else if p2.len() > 0 {
            lemma_peers_are_items(s2, le, x, 0);
            assert(s1.contains(p2[0]));
            let at = choose|i: int| 0 <= i < s1.len() && s1[i] == p2[0];
            lemma_peers_hold_items(s1, le, x, at);
        } else {
            assert(p1 =~= p2);
        }
    }
    lemma_ascending_with_same_peers(a1, a2, le);
}

} // verus!
