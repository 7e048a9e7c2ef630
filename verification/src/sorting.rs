//! What it means to sort a sequence stably, and why such a sort has one
//! result only.

use crate::text::Order;
use vstd::prelude::*;

verus! {

/// `ord` compares like a total order that may tie: everything ties with
/// itself, the two directions of a comparison agree, and "not greater" is
/// transitive.
pub open spec fn is_order<T>(ord: spec_fn(T, T) -> Order) -> bool {
    &&& forall|a: T| #[trigger] ord(a, a) == Order::Equal
    &&& forall|a: T, b: T| #[trigger] ord(b, a) == ord(a, b).flipped()
    &&& forall|a: T, b: T, c: T|
        #[trigger] ord(a, b) != Order::Greater && #[trigger] ord(b, c) != Order::Greater ==> ord(
            a,
            c,
        ) != Order::Greater
}

/// No element of `s` is greater than one that follows it.
pub open spec fn ordered<T>(s: Seq<T>, ord: spec_fn(T, T) -> Order) -> bool {
    forall|i: int, j: int| 0 <= i < j < s.len() ==> ord(s[i], s[j]) != Order::Greater
}

/// The values that tie with `x`.
pub open spec fn peers<T>(ord: spec_fn(T, T) -> Order, x: T) -> spec_fn(T) -> bool {
    |y: T| ord(x, y) == Order::Equal
}

/// `r` and `s` hold the same values, and those that tie with one another in
/// the same order.
pub open spec fn keeps_peers<T>(r: Seq<T>, s: Seq<T>, ord: spec_fn(T, T) -> Order) -> bool {
    forall|x: T| #[trigger] r.filter(peers(ord, x)) == s.filter(peers(ord, x))
}

/// `r` is `s` sorted by `ord`, ties left in the order they had in `s`.
pub open spec fn stable_sort_of<T>(r: Seq<T>, s: Seq<T>, ord: spec_fn(T, T) -> Order) -> bool {
    ordered(r, ord) && keeps_peers(r, s, ord)
}

/// The comparison read from the other side, which sorts downwards.
pub open spec fn flip<T>(ord: spec_fn(T, T) -> Order) -> spec_fn(T, T) -> Order {
    |a: T, b: T| ord(a, b).flipped()
}

/// No two elements of `s` tie.
pub open spec fn no_ties<T>(s: Seq<T>, ord: spec_fn(T, T) -> Order) -> bool {
    forall|i: int, j: int| 0 <= i < j < s.len() ==> ord(s[i], s[j]) != Order::Equal
}

/// Values that tie compare alike with every third value.
pub proof fn lemma_peers_compare_alike<T>(ord: spec_fn(T, T) -> Order, a: T, b: T, c: T)
    requires
        is_order(ord),
        ord(a, b) == Order::Equal,
    ensures
        ord(a, c) == ord(b, c),
        ord(c, a) == ord(c, b),
{
    assert(ord(b, a) == ord(a, b).flipped());
    assert(ord(c, a) == ord(a, c).flipped());
    assert(ord(c, b) == ord(b, c).flipped());
    if ord(b, c) != Order::Greater {
        assert(ord(a, b) != Order::Greater && ord(b, c) != Order::Greater);
        assert(ord(a, c) != Order::Greater);
    }
    if ord(a, c) != Order::Greater {
        assert(ord(b, a) != Order::Greater && ord(a, c) != Order::Greater);
        assert(ord(b, c) != Order::Greater);
    }
    if ord(c, b) != Order::Greater {
        assert(ord(c, b) != Order::Greater && ord(b, a) != Order::Greater);
        assert(ord(c, a) != Order::Greater);
    }
    if ord(c, a) != Order::Greater {
        assert(ord(c, a) != Order::Greater && ord(a, b) != Order::Greater);
        assert(ord(c, b) != Order::Greater);
    }
}

/// Where no element passes, the filter leaves nothing.
pub proof fn lemma_filter_none<T>(s: Seq<T>, pred: spec_fn(T) -> bool)
    requires
        forall|i: int| 0 <= i < s.len() ==> !pred(#[trigger] s[i]),
    ensures
        s.filter(pred) == Seq::<T>::empty(),
    decreases s.len(),
{
    reveal(Seq::filter);
    if s.len() > 0 {
        lemma_filter_none(s.drop_last(), pred);
    }
}

/// Where the filter leaves something, some element passes.
pub proof fn lemma_filter_witness<T>(s: Seq<T>, pred: spec_fn(T) -> bool) -> (i: int)
    requires
        s.filter(pred).len() > 0,
    ensures
        0 <= i < s.len(),
        pred(s[i]),
{
    if forall|k: int| 0 <= k < s.len() ==> !pred(#[trigger] s[k]) {
        lemma_filter_none(s, pred);
    }
    choose|k: int| 0 <= k < s.len() && pred(#[trigger] s[k])
}

/// The filter of a sequence of one element.
pub proof fn lemma_filter_single<T>(x: T, pred: spec_fn(T) -> bool)
    ensures
        seq![x].filter(pred) == (if pred(x) {
            seq![x]
        } else {
            Seq::<T>::empty()
        }),
{
    reveal(Seq::filter);
    let e = Seq::<T>::empty();
    assert(seq![x] =~= e.push(x));
    e.lemma_filter_push(x, pred);
    assert(e.filter(pred) =~= e);
    assert(e.push(x) =~= seq![x]);
}

/// One insertion step of a stable sort: `x` goes behind everything that is
/// not greater than it and before everything that is.
pub proof fn lemma_insert_step<T>(
    r: Seq<T>,
    s: Seq<T>,
    x: T,
    p: int,
    ord: spec_fn(T, T) -> Order,
)
    requires
        is_order(ord),
        stable_sort_of(r, s, ord),
        0 <= p <= r.len(),
        forall|k: int| 0 <= k < p ==> ord(#[trigger] r[k], x) != Order::Greater,
        forall|k: int| p <= k < r.len() ==> ord(#[trigger] r[k], x) == Order::Greater,
    ensures
        stable_sort_of(r.insert(p, x), s.push(x), ord),
{
    let n = r.insert(p, x);
    let front = r.subrange(0, p);
    let back = r.subrange(p, r.len() as int);
    assert(r =~= front + back);
    assert(n =~= front.push(x) + back);
    assert forall|i: int, j: int| 0 <= i < j < n.len() implies ord(n[i], n[j])
        != Order::Greater by {
        if j == p {
            assert(n[i] == r[i]);
        } else if i == p {
            assert(n[j] == r[j - 1]);
            assert(ord(x, r[j - 1]) == ord(r[j - 1], x).flipped());
        } else {
            let a = if i < p { i } else { i - 1 };
            let b = if j < p { j } else { j - 1 };
            assert(n[i] == r[a] && n[j] == r[b]);
        }
    }
    assert forall|z: T| #[trigger] n.filter(peers(ord, z)) == s.push(x).filter(peers(ord, z)) by {
        let pz = peers(ord, z);
        assert(r.filter(pz) == s.filter(pz));
        Seq::filter_distributes_over_add(front, back, pz);
        Seq::filter_distributes_over_add(front.push(x), back, pz);
        front.lemma_filter_push(x, pz);
        s.lemma_filter_push(x, pz);
        if pz(x) {
            assert forall|k: int| 0 <= k < back.len() implies !pz(#[trigger] back[k]) by {
                assert(back[k] == r[p + k]);
                lemma_peers_compare_alike(ord, z, x, back[k]);
                assert(ord(x, r[p + k]) == ord(r[p + k], x).flipped());
            }
            lemma_filter_none(back, pz);
            assert(front.filter(pz) + Seq::<T>::empty() =~= front.filter(pz));
            assert(front.filter(pz).push(x) + Seq::<T>::empty() =~= front.filter(pz).push(x));
        }
    }
}

/// A sequence that is ordered is pinned down by the values it holds and by
/// the order of those that tie: two such sequences are one.
pub proof fn lemma_stable_sort_unique<T>(r1: Seq<T>, r2: Seq<T>, ord: spec_fn(T, T) -> Order)
    requires
        is_order(ord),
        ordered(r1, ord),
        ordered(r2, ord),
        keeps_peers(r1, r2, ord),
    ensures
        r1 == r2,
    decreases r1.len(),
{
    if r1.len() == 0 {
        if r2.len() > 0 {
            let py = peers(ord, r2[0]);
            r2.lemma_filter_contains(py, 0);
            r1.lemma_filter_len(py);
            assert(r1.filter(py) == r2.filter(py));
        }
        assert(r1 =~= r2);
    } else {
        let x = r1[0];
        let px = peers(ord, x);
        r1.lemma_filter_contains(px, 0);
        assert(r1.filter(px) == r2.filter(px));
        r2.lemma_filter_len(px);
        let y = r2[0];
        let py = peers(ord, y);
        r2.lemma_filter_contains(py, 0);
        assert(r1.filter(py) == r2.filter(py));
        let m = lemma_filter_witness(r2, px);
        let k = lemma_filter_witness(r1, py);
        assert(ord(y, x) != Order::Greater) by {
            assert(ord(r2[m], x) == ord(x, r2[m]).flipped());
            if m > 0 {
                assert(ord(y, r2[m]) != Order::Greater && ord(r2[m], x) != Order::Greater);
            }
        }
        assert(ord(x, y) != Order::Greater) by {
            assert(ord(r1[k], y) == ord(y, r1[k]).flipped());
            if k > 0 {
                assert(ord(x, r1[k]) != Order::Greater && ord(r1[k], y) != Order::Greater);
            }
        }
        assert(ord(y, x) == ord(x, y).flipped());
        assert(ord(x, y) == Order::Equal);
        let t1 = r1.drop_first();
        let t2 = r2.drop_first();
        assert(r1 =~= seq![x] + t1);
        assert(r2 =~= seq![y] + t2);
        lemma_filter_single(x, px);
        lemma_filter_single(y, px);
        Seq::filter_distributes_over_add(seq![x], t1, px);
        Seq::filter_distributes_over_add(seq![y], t2, px);
        assert(r1.filter(px)[0] == x);
        assert(r2.filter(px)[0] == y);
        assert(x == y);
        assert forall|z: T| #[trigger] t1.filter(peers(ord, z)) == t2.filter(peers(ord, z)) by {
            let pz = peers(ord, z);
            let f = seq![x].filter(pz);
            Seq::filter_distributes_over_add(seq![x], t1, pz);
            Seq::filter_distributes_over_add(seq![x], t2, pz);
            assert(r1.filter(pz) == r2.filter(pz));
            assert(t1.filter(pz) =~= (f + t1.filter(pz)).skip(f.len() as int));
            assert(t2.filter(pz) =~= (f + t2.filter(pz)).skip(f.len() as int));
        }
        assert forall|i: int, j: int| 0 <= i < j < t1.len() implies ord(t1[i], t1[j])
            != Order::Greater by {
            assert(t1[i] == r1[i + 1] && t1[j] == r1[j + 1]);
        }
        assert forall|i: int, j: int| 0 <= i < j < t2.len() implies ord(t2[i], t2[j])
            != Order::Greater by {
            assert(t2[i] == r2[i + 1] && t2[j] == r2[j + 1]);
        }
        lemma_stable_sort_unique(t1, t2, ord);
        assert(r1 =~= r2);
    }
}

/// Filtering a reversed sequence gives the filtered sequence reversed.
pub proof fn lemma_filter_reverse<T>(s: Seq<T>, pred: spec_fn(T) -> bool)
    ensures
        s.reverse().filter(pred) == s.filter(pred).reverse(),
    decreases s.len(),
{
    reveal(Seq::filter);
    if s.len() == 0 {
        assert(s.reverse() =~= s);
        assert(s.filter(pred).reverse() =~= s.filter(pred));
    } else {
        let t = s.drop_last();
        let a = s.last();
        lemma_filter_reverse(t, pred);
        assert(s.reverse() =~= seq![a] + t.reverse());
        Seq::filter_distributes_over_add(seq![a], t.reverse(), pred);
        lemma_filter_single(a, pred);
        let ft = t.filter(pred);
        if pred(a) {
            assert(ft.push(a).reverse() =~= seq![a] + ft.reverse());
        } else {
            assert(Seq::<T>::empty() + ft.reverse() =~= ft.reverse());
        }
    }
}

/// In a sequence without ties at most one element ties with a given value.
pub proof fn lemma_peers_at_most_one<T>(s: Seq<T>, ord: spec_fn(T, T) -> Order, x: T)
    requires
        is_order(ord),
        no_ties(s, ord),
    ensures
        s.filter(peers(ord, x)).len() <= 1,
    decreases s.len(),
{
    reveal(Seq::filter);
    if s.len() > 0 {
        let t = s.drop_last();
        let px = peers(ord, x);
        assert forall|i: int, j: int| 0 <= i < j < t.len() implies ord(t[i], t[j])
            != Order::Equal by {
            assert(t[i] == s[i] && t[j] == s[j]);
        }
        lemma_peers_at_most_one(t, ord, x);
        if px(s.last()) && t.filter(px).len() > 0 {
            let k = lemma_filter_witness(t, px);
            assert(t[k] == s[k]);
            lemma_peers_compare_alike(ord, x, s[k], s.last());
            assert(ord(s[k], s[s.len() - 1]) != Order::Equal);
        }
    }
}

/// Sorting downwards what was sorted upwards turns the sequence round,
/// provided that no two of its elements tie.
pub proof fn lemma_reversed_sort<T>(
    s: Seq<T>,
    up: Seq<T>,
    down: Seq<T>,
    ord: spec_fn(T, T) -> Order,
)
    requires
        is_order(ord),
        no_ties(s, ord),
        stable_sort_of(up, s, ord),
        stable_sort_of(down, up, flip(ord)),
    ensures
        down == up.reverse(),
{
    let back = flip(ord);
    let rev = up.reverse();
    let n = up.len() as int;
    assert(is_order(back)) by {
        assert forall|a: T, b: T, c: T|
            #[trigger] back(a, b) != Order::Greater && #[trigger] back(b, c)
                != Order::Greater implies back(a, c) != Order::Greater by {
            assert(ord(b, a) == ord(a, b).flipped());
            assert(ord(c, b) == ord(b, c).flipped());
            assert(ord(c, a) == ord(a, c).flipped());
            assert(ord(c, b) != Order::Greater && ord(b, a) != Order::Greater);
        }
    }
    assert forall|i: int, j: int| 0 <= i < j < rev.len() implies back(rev[i], rev[j])
        != Order::Greater by {
        assert(rev[i] == up[n - 1 - i] && rev[j] == up[n - 1 - j]);
        assert(ord(up[n - 1 - j], up[n - 1 - i]) != Order::Greater);
        assert(ord(up[n - 1 - i], up[n - 1 - j]) == ord(up[n - 1 - j], up[n - 1 - i]).flipped());
    }
    assert forall|x: T| #[trigger] down.filter(peers(back, x)) == rev.filter(peers(back, x)) by {
        assert(peers(back, x) =~= peers(ord, x));
        let px = peers(ord, x);
        assert(down.filter(peers(back, x)) == up.filter(peers(back, x)));
        assert(up.filter(px) == s.filter(px));
        lemma_peers_at_most_one(s, ord, x);
        lemma_filter_reverse(up, px);
        assert(up.filter(px).reverse() =~= up.filter(px));
    }
    lemma_stable_sort_unique(down, rev, back);
}

/// Below the place where a scan from the right stopped, nothing is greater
/// than the value scanned for.
pub proof fn lemma_scan_stop<T>(r: Seq<T>, x: T, p: int, ord: spec_fn(T, T) -> Order)
    requires
        is_order(ord),
        ordered(r, ord),
        0 <= p <= r.len(),
        p > 0 ==> ord(r[p - 1], x) != Order::Greater,
    ensures
        forall|k: int| 0 <= k < p ==> ord(#[trigger] r[k], x) != Order::Greater,
{
    assert forall|k: int| 0 <= k < p implies ord(#[trigger] r[k], x) != Order::Greater by {
        if k < p - 1 {
            assert(ord(r[k], r[p - 1]) != Order::Greater && ord(r[p - 1], x) != Order::Greater);
        }
    }
}

/// One round of an insertion sort in place. The first `i` elements of
/// `before` are the first `i` of `start`, sorted; the element at `i` moves
/// to `p`, which lies behind everything not greater than it.
pub proof fn lemma_move_step<T>(
    before: Seq<T>,
    start: Seq<T>,
    i: int,
    p: int,
    ord: spec_fn(T, T) -> Order,
)
    requires
        is_order(ord),
        0 <= p <= i < before.len(),
        before.len() == start.len(),
        before.skip(i) == start.skip(i),
        stable_sort_of(before.take(i), start.take(i), ord),
        before.to_multiset() == start.to_multiset(),
        forall|k: int| p <= k < i ==> ord(#[trigger] before[k], before[i]) == Order::Greater,
        p > 0 ==> ord(before[p - 1], before[i]) != Order::Greater,
    ensures
        before.remove(i).insert(p, before[i]).skip(i + 1) == start.skip(i + 1),
        stable_sort_of(
            before.remove(i).insert(p, before[i]).take(i + 1),
            start.take(i + 1),
            ord,
        ),
        before.remove(i).insert(p, before[i]).to_multiset() == start.to_multiset(),
{
    let x = before[i];
    let sorted = before.take(i);
    let after = before.remove(i).insert(p, x);
    assert(x == start[i]) by {
        assert(before.skip(i)[0] == start.skip(i)[0]);
    }
    assert(after.skip(i + 1) =~= start.skip(i + 1)) by {
        let a = after.skip(i + 1);
        let b = start.skip(i + 1);
        assert forall|k: int| 0 <= k < a.len() implies #[trigger] a[k] == b[k] by {
            assert(before.skip(i)[k + 1] == start.skip(i)[k + 1]);
        }
    }
    assert(after.take(i + 1) =~= sorted.insert(p, x));
    assert(start.take(i + 1) =~= start.take(i).push(x));
    assert(stable_sort_of(sorted.insert(p, x), start.take(i).push(x), ord)) by {
        assert(p > 0 ==> sorted[p - 1] == before[p - 1]);
        lemma_scan_stop(sorted, x, p, ord);
        assert forall|k: int| p <= k < sorted.len() implies ord(#[trigger] sorted[k], x)
            == Order::Greater by {
            assert(sorted[k] == before[k]);
        }
        lemma_insert_step(sorted, start.take(i), x, p, ord);
    }
    assert(after.to_multiset() == start.to_multiset()) by {
        vstd::seq_lib::to_multiset_remove(before, i);
        vstd::seq_lib::to_multiset_insert(before.remove(i), p, x);
        before.to_multiset_ensures();
        assert(before.to_multiset().remove(x).insert(x) =~= before.to_multiset());
    }
}

/// What the filter leaves was in the sequence.
pub proof fn lemma_filter_member<T>(s: Seq<T>, pred: spec_fn(T) -> bool, k: int) -> (j: int)
    requires
        0 <= k < s.filter(pred).len(),
    ensures
        0 <= j < s.len(),
        s[j] == s.filter(pred)[k],
    decreases s.len(),
{
    reveal(Seq::filter);
    if s.len() == 0 {
        0
    } else {
        let t = s.drop_last();
        if k < t.filter(pred).len() {
            let j = lemma_filter_member(t, pred, k);
            assert(t[j] == s[j]);
            j
        } else {
            s.len() - 1
        }
    }
}

} // verus!
