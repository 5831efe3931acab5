//! Stable ordering by a pair of integers. The order is returned as a list of
//! positions, so that one routine serves every kind of item.

use vstd::prelude::*;

verus! {

/// Whether key `a` comes strictly before key `b`: by the first component,
/// then by the second.
pub open spec fn key_before(a: (int, int), b: (int, int)) -> bool {
    a.0 < b.0 || (a.0 == b.0 && a.1 < b.1)
}

/// The order `o` with position `k` put in: behind every position whose key
/// is not after the key of `k`.
pub open spec fn insert_position(keys: Seq<(int, int)>, o: Seq<int>, k: int) -> Seq<int>
    decreases o.len(),
{
    if o.len() > 0 && key_before(keys[k], keys[o.last()]) {
        insert_position(keys, o.drop_last(), k).push(o.last())
    } else {
        o.push(k)
    }
}

/// The stable order of the first `n` positions of `keys`.
pub open spec fn stable_order_of_first(keys: Seq<(int, int)>, n: nat) -> Seq<int>
    decreases n,
{
    if n == 0 {
        Seq::empty()
    } else {
        insert_position(keys, stable_order_of_first(keys, (n - 1) as nat), n - 1)
    }
}

/// The positions of `keys` in ascending order of their keys, positions with
/// equal keys in ascending order.
pub open spec fn stable_order(keys: Seq<(int, int)>) -> Seq<int> {
    stable_order_of_first(keys, keys.len())
}

/// What makes `o` the stable order of the first `n` positions.
pub open spec fn is_stable_order(keys: Seq<(int, int)>, n: int, o: Seq<int>) -> bool {
    &&& o.len() == n
    &&& forall|i: int| 0 <= i < o.len() ==> 0 <= #[trigger] o[i] < n
    &&& forall|k: int| 0 <= k < n ==> o.contains(k)
    &&& forall|i: int, j: int|
        0 <= i < j < o.len() ==> !key_before(keys[#[trigger] o[j]], keys[#[trigger] o[i]])
    &&& forall|i: int, j: int|
        0 <= i < j < o.len() && keys[#[trigger] o[i]] == keys[#[trigger] o[j]] ==> o[i] < o[j]
}

/// Whether `p` parts `o` into what is not after position `k` and what is:
/// everything from `p` on has a key after that of `k`, and the item before
/// `p` has not.
pub open spec fn is_split_point(keys: Seq<(int, int)>, o: Seq<int>, k: int, p: int) -> bool {
    &&& 0 <= p <= o.len()
    &&& forall|j: int| p <= j < o.len() ==> key_before(keys[k], keys[#[trigger] o[j]])
    &&& p > 0 ==> !key_before(keys[k], keys[o[p - 1]])
}

/// Putting `k` in is the same as inserting it at its split point.
proof fn lemma_insert_position_at(keys: Seq<(int, int)>, o: Seq<int>, k: int, p: int)
    requires
        is_split_point(keys, o, k, p),
    ensures
        insert_position(keys, o, k) == o.insert(p, k),
    decreases o.len() - p,
{
    if p < o.len() {
        assert(key_before(keys[k], keys[o[o.len() - 1]]));
        lemma_insert_position_at(keys, o.drop_last(), k, p);
        assert(o.drop_last().insert(p, k).push(o.last()) =~= o.insert(p, k));
    } else {
        assert(o.push(k) =~= o.insert(p, k));
    }
}

proof fn lemma_insert_position_keeps_order(keys: Seq<(int, int)>, o: Seq<int>, n: int)
    requires
        0 <= n < keys.len(),
        is_stable_order(keys, n, o),
    ensures
        is_stable_order(keys, n + 1, insert_position(keys, o, n)),
{
    lemma_split_point(keys, o, n, o.len() as int);
    let p = choose|p: int| is_split_point(keys, o, n, p);
    lemma_insert_position_at(keys, o, n, p);
    let r = o.insert(p, n);
    assert forall|k: int| 0 <= k < n + 1 implies r.contains(k) by {
        if k == n {
            assert(r[p] == n);
        } else {
            assert(o.contains(k));
            let i = choose|i: int| 0 <= i < o.len() && o[i] == k;
            if i < p {
                assert(r[i] == k);
            } else {
                assert(r[i + 1] == k);
            }
        }
    }
    assert forall|i: int, j: int| 0 <= i < j < r.len() implies !key_before(
        keys[#[trigger] r[j]],
        keys[#[trigger] r[i]],
    ) by {
        let oi = if i < p { i } else { i - 1 };
        let oj = if j < p { j } else { j - 1 };
        if i == p {
            assert(r[j] == o[oj]);
        } else if j == p {
            assert(r[i] == o[oi]);
            if p > 0 {
                assert(!key_before(keys[o[p - 1]], keys[o[oi]]) || oi == p - 1);
            }
        } else {
            assert(r[i] == o[oi] && r[j] == o[oj]);
        }
    }
    assert forall|i: int, j: int|
        0 <= i < j < r.len() && keys[#[trigger] r[i]] == keys[#[trigger] r[j]] implies r[i]
        < r[j] by {
        let oi = if i < p { i } else { i - 1 };
        let oj = if j < p { j } else { j - 1 };
        if i == p {
            assert(r[j] == o[oj]);
        } else if j == p {
            assert(r[i] == o[oi]);
        } else {
            assert(r[i] == o[oi] && r[j] == o[oj]);
        }
    }
}

/// Some point splits `o` into what is not after `k` and what is.
proof fn lemma_split_point(keys: Seq<(int, int)>, o: Seq<int>, k: int, q: int)
    requires
        0 <= q <= o.len(),
        forall|j: int| q <= j < o.len() ==> key_before(keys[k], keys[#[trigger] o[j]]),
    ensures
        exists|p: int| is_split_point(keys, o, k, p),
    decreases q,
{
    if q > 0 && key_before(keys[k], keys[o[q - 1]]) {
        lemma_split_point(keys, o, k, q - 1);
    } else {
        assert(is_split_point(keys, o, k, q));
    }
}

/// The stable order holds every position once, in ascending order of the
/// keys, and keeps positions with equal keys in the order they came in.
pub proof fn lemma_stable_order_sorts(keys: Seq<(int, int)>)
    ensures
        is_stable_order(keys, keys.len() as int, stable_order(keys)),
{
    lemma_stable_order_of_first(keys, keys.len());
}

proof fn lemma_stable_order_of_first(keys: Seq<(int, int)>, n: nat)
    requires
        n <= keys.len(),
    ensures
        is_stable_order(keys, n as int, stable_order_of_first(keys, n)),
    decreases n,
{
    if n > 0 {
        lemma_stable_order_of_first(keys, (n - 1) as nat);
        lemma_insert_position_keeps_order(keys, stable_order_of_first(keys, (n - 1) as nat), n - 1);
    }
}

/// The keys of a vector, as pairs of integers.
pub open spec fn key_views(keys: Seq<(i128, i128)>) -> Seq<(int, int)> {
    keys.map_values(|k: (i128, i128)| (k.0 as int, k.1 as int))
}

/// The positions of a vector, as integers.
pub open spec fn position_views(o: Seq<usize>) -> Seq<int> {
    o.map_values(|i: usize| i as int)
}

/// Sorts the positions of `keys` by key, keeping positions with equal keys in
/// the order they came in.
pub fn sort_positions(keys: &Vec<(i128, i128)>) -> (o: Vec<usize>)
    ensures
        position_views(o@) == stable_order(key_views(keys@)),
        o.len() == keys.len(),
        forall|i: int| 0 <= i < o.len() ==> o@[i] < keys.len(),
{
    let ghost ks = key_views(keys@);
    let mut o: Vec<usize> = Vec::new();
    let mut n: usize = 0;
    while n < keys.len()
        invariant
            n <= keys.len(),
            ks == key_views(keys@),
            o.len() == n,
            forall|i: int| 0 <= i < o.len() ==> o@[i] < n,
            position_views(o@) == stable_order_of_first(ks, n as nat),
        decreases keys.len() - n,
    {
        let key = keys[n];
        let mut p: usize = o.len();
        while p > 0 && (key.0 < keys[o[p - 1]].0 || (key.0 == keys[o[p - 1]].0 && key.1
            < keys[o[p - 1]].1))
            invariant
                p <= o.len(),
                n < keys.len(),
                key == keys@[n as int],
                ks == key_views(keys@),
                forall|i: int| 0 <= i < o.len() ==> o@[i] < n,
                forall|j: int|
                    p <= j < o.len() ==> key_before(
                        ks[n as int],
                        ks[#[trigger] position_views(o@)[j]],
                    ),
            decreases p,
        {
            p -= 1;
        }
        proof {
            let ov = position_views(o@);
            if p > 0 {
                assert(ov[p - 1] == o@[p - 1] as int);
            }
            lemma_insert_position_at(ks, ov, n as int, p as int);
            assert(position_views(o@.insert(p as int, n)) =~= ov.insert(p as int, n as int));
        }
        o.insert(p, n);
        n += 1;
    }
    o
}

} // verus!
