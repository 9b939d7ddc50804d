//! Stable sorting of indices by integer keys.
use vstd::prelude::*;

verus! {

/// `sorted` with `x` put behind the last element whose key is at most its own.
pub open spec fn inserted(sorted: Seq<usize>, x: usize, keys: Seq<i128>) -> Seq<usize>
    decreases sorted.len(),
{
    if sorted.len() == 0 || keys[sorted.last() as int] <= keys[x as int] {
        sorted.push(x)
    } else {
        inserted(sorted.drop_last(), x, keys).push(sorted.last())
    }
}

/// `items` in the order of their keys; equal keys keep the order of `items`.
pub open spec fn sorted_by(items: Seq<usize>, keys: Seq<i128>) -> Seq<usize>
    decreases items.len(),
{
    if items.len() == 0 {
        items
    } else {
        inserted(sorted_by(items.drop_last(), keys), items.last(), keys)
    }
}

/// Each key is at most the next.
pub open spec fn ascending(s: Seq<usize>, keys: Seq<i128>) -> bool {
    forall|p: int, q: int|
        0 <= p < q < s.len() ==> keys[#[trigger] s[p] as int] <= keys[#[trigger] s[q] as int]
}

/// Each key is below the next.
pub open spec fn rising(s: Seq<usize>, keys: Seq<i128>) -> bool {
    forall|p: int, q: int|
        0 <= p < q < s.len() ==> keys[#[trigger] s[p] as int] < keys[#[trigger] s[q] as int]
}

/// Elements with equal keys stand in `s` as they do in `items`.
pub open spec fn keeps_ties(s: Seq<usize>, items: Seq<usize>, keys: Seq<i128>) -> bool {
    forall|p: int, q: int|
        0 <= p < q < s.len() && keys[#[trigger] s[p] as int] == keys[#[trigger] s[q] as int]
            ==> items.index_of(s[p]) < items.index_of(s[q])
}

proof fn lemma_inserted(s: Seq<usize>, x: usize, keys: Seq<i128>)
    ensures
        inserted(s, x, keys).len() == s.len() + 1,
        inserted(s, x, keys).to_multiset() == s.to_multiset().insert(x),
        exists|p: int|
            0 <= p <= s.len() && #[trigger] s.insert(p, x) == inserted(s, x, keys) && (ascending(
                s,
                keys,
            ) ==> (forall|i: int| 0 <= i < p ==> keys[#[trigger] s[i] as int] <= keys[x as int])
                && (forall|i: int|
                p <= i < s.len() ==> keys[#[trigger] s[i] as int] > keys[x as int])),
    decreases s.len(),
{
    broadcast use vstd::seq_lib::group_to_multiset_ensures;

    if s.len() == 0 || keys[s.last() as int] <= keys[x as int] {
        assert(s.insert(s.len() as int, x) =~= s.push(x));
    } else {
        let t = s.drop_last();
        lemma_inserted(t, x, keys);
        let p = choose|p: int|
            0 <= p <= t.len() && #[trigger] t.insert(p, x) == inserted(t, x, keys) && (ascending(
                t,
                keys,
            ) ==> (forall|i: int| 0 <= i < p ==> keys[#[trigger] t[i] as int] <= keys[x as int])
                && (forall|i: int|
                p <= i < t.len() ==> keys[#[trigger] t[i] as int] > keys[x as int]));
        assert(s.insert(p, x) =~= t.insert(p, x).push(s.last()));
        assert(s =~= t.push(s.last()));
        assert(s.to_multiset().insert(x) =~= t.to_multiset().insert(x).insert(s.last()));
        if ascending(s, keys) {
            assert(ascending(t, keys)) by {
                assert forall|a: int, b: int| 0 <= a < b < t.len() implies keys[#[trigger] t[a] as int]
                    <= keys[#[trigger] t[b] as int] by {
                    assert(t[a] == s[a] && t[b] == s[b]);
                }
            }
            assert forall|i: int| 0 <= i < p implies keys[#[trigger] s[i] as int] <= keys[x as int] by {
                assert(t[i] == s[i]);
            }
            assert forall|i: int| p <= i < s.len() implies keys[#[trigger] s[i] as int]
                > keys[x as int] by {
                if i < t.len() {
                    assert(t[i] == s[i]);
                }
            }
        }
    }
}

/// Sorting rearranges, orders by key, and is stable.
pub proof fn law_stable_sort(items: Seq<usize>, keys: Seq<i128>)
    ensures
        sorted_by(items, keys).len() == items.len(),
        sorted_by(items, keys).to_multiset() == items.to_multiset(),
        ascending(sorted_by(items, keys), keys),
        items.no_duplicates() ==> keeps_ties(sorted_by(items, keys), items, keys),
    decreases items.len(),
{
    broadcast use vstd::seq_lib::group_to_multiset_ensures;

    if items.len() > 0 {
        let rest = items.drop_last();
        let x = items.last();
        let s = sorted_by(rest, keys);
        law_stable_sort(rest, keys);
        lemma_inserted(s, x, keys);
        assert(items =~= rest.push(x));
        let p = choose|p: int|
            0 <= p <= s.len() && #[trigger] s.insert(p, x) == inserted(s, x, keys) && (ascending(
                s,
                keys,
            ) ==> (forall|i: int| 0 <= i < p ==> keys[#[trigger] s[i] as int] <= keys[x as int])
                && (forall|i: int|
                p <= i < s.len() ==> keys[#[trigger] s[i] as int] > keys[x as int]));
        let r = s.insert(p, x);
        assert forall|a: int, b: int| 0 <= a < b < r.len() implies keys[#[trigger] r[a] as int]
            <= keys[#[trigger] r[b] as int] by {
            let ghost_a = if a < p { a } else { a - 1 };
            let ghost_b = if b < p { b } else { b - 1 };
            if a != p {
                assert(r[a] == s[ghost_a]);
            }
            if b != p {
                assert(r[b] == s[ghost_b]);
            }
        }
        if items.no_duplicates() {
            assert(rest.no_duplicates());
            assert forall|a: int, b: int|
                0 <= a < b < r.len() && keys[#[trigger] r[a] as int] == keys[#[trigger] r[b] as int] implies items.index_of(
            r[a]) < items.index_of(r[b]) by {
                let sa = if a < p { a } else { a - 1 };
                let sb = if b < p { b } else { b - 1 };
                if a != p {
                    assert(r[a] == s[sa]);
                    lemma_position(rest, s, s[sa]);
                    lemma_index(items, rest.index_of(s[sa]));
                }
                if b != p {
                    assert(r[b] == s[sb]);
                    lemma_position(rest, s, s[sb]);
                    lemma_index(items, rest.index_of(s[sb]));
                }
                lemma_index(items, items.len() - 1);
            }
        }
    }
}

proof fn lemma_index(items: Seq<usize>, i: int)
    requires
        items.no_duplicates(),
        0 <= i < items.len(),
    ensures
        items.index_of(items[i]) == i,
{
    let x = items[i];
    let j = items.index_of(x);
    assert(items.contains(x));
    assert(items[j] == x);
}

proof fn lemma_position(items: Seq<usize>, s: Seq<usize>, x: usize)
    requires
        items.to_multiset() == s.to_multiset(),
        s.contains(x),
    ensures
        items.contains(x),
        0 <= items.index_of(x) < items.len(),
        items[items.index_of(x)] == x,
{
    broadcast use vstd::seq_lib::group_to_multiset_ensures;

    assert(s.to_multiset().count(x) > 0);
    assert(items.contains(x));
}

/// An arrangement of `items` with rising keys is the sorted one.
pub proof fn lemma_rising_is_sorted(items: Seq<usize>, s: Seq<usize>, keys: Seq<i128>)
    requires
        s.to_multiset() == items.to_multiset(),
        rising(s, keys),
    ensures
        sorted_by(items, keys) == s,
{
    law_stable_sort(items, keys);
    let r = sorted_by(items, keys);
    lemma_unique(r, s, keys);
}

/// Sorting what is in order changes nothing.
pub proof fn lemma_ascending_is_sorted(items: Seq<usize>, keys: Seq<i128>)
    requires
        ascending(items, keys),
    ensures
        sorted_by(items, keys) == items,
    decreases items.len(),
{
    if items.len() > 0 {
        let rest = items.drop_last();
        assert forall|p: int, q: int| 0 <= p < q < rest.len() implies keys[
        #[trigger] rest[p] as int] <= keys[#[trigger] rest[q] as int] by {
            assert(rest[p] == items[p]);
            assert(rest[q] == items[q]);
        }
        lemma_ascending_is_sorted(rest, keys);
        if rest.len() > 0 {
            assert(keys[items[items.len() - 2] as int] <= keys[items[items.len() - 1] as int]);
        }
        assert(rest.push(items.last()) =~= items);
    }
}

proof fn lemma_unique(r: Seq<usize>, s: Seq<usize>, keys: Seq<i128>)
    requires
        r.to_multiset() == s.to_multiset(),
        ascending(r, keys),
        rising(s, keys),
    ensures
        r == s,
    decreases s.len(),
{
    broadcast use vstd::seq_lib::group_to_multiset_ensures;

    assert(r.len() == s.len()) by {
        assert(r.to_multiset().len() == r.len());
        assert(s.to_multiset().len() == s.len());
    }
    if s.len() > 0 {
        let a = r.last();
        let b = s.last();
        lemma_position(s, r, a);
        lemma_position(r, s, b);
        assert(r.contains(b));
        let i = s.index_of(a);
        let j = r.index_of(b);
        assert(a == b) by {
            if i < s.len() - 1 {
                assert(keys[s[i] as int] < keys[s[s.len() - 1] as int]);
                if j < r.len() - 1 {
                    assert(keys[r[j] as int] <= keys[r[r.len() - 1] as int]);
                }
            }
        }
        let r0 = r.drop_last();
        let s0 = s.drop_last();
        assert(r =~= r0.push(a));
        assert(s =~= s0.push(b));
        assert(r0.to_multiset() =~= s0.to_multiset()) by {
            assert(r.to_multiset() =~= r0.to_multiset().insert(a));
            assert(s.to_multiset() =~= s0.to_multiset().insert(b));
            assert(r0.to_multiset() =~= r.to_multiset().remove(a));
            assert(s0.to_multiset() =~= s.to_multiset().remove(b));
        }
        assert forall|p: int, q: int| 0 <= p < q < r0.len() implies keys[#[trigger] r0[p] as int]
            <= keys[#[trigger] r0[q] as int] by {
            assert(r0[p] == r[p] && r0[q] == r[q]);
        }
        assert forall|p: int, q: int| 0 <= p < q < s0.len() implies keys[#[trigger] s0[p] as int]
            < keys[#[trigger] s0[q] as int] by {
            assert(s0[p] == s[p] && s0[q] == s[q]);
        }
        lemma_unique(r0, s0, keys);
    }
}

proof fn lemma_insert_at(s: Seq<usize>, x: usize, keys: Seq<i128>, p: int)
    requires
        0 <= p <= s.len(),
        forall|i: int| p <= i < s.len() ==> keys[#[trigger] s[i] as int] > keys[x as int],
        p > 0 ==> keys[s[p - 1] as int] <= keys[x as int],
    ensures
        inserted(s, x, keys) == s.insert(p, x),
    decreases s.len(),
{
    if p == s.len() {
        assert(s.insert(p, x) =~= s.push(x));
    } else {
        let t = s.drop_last();
        assert forall|i: int| p <= i < t.len() implies keys[#[trigger] t[i] as int] > keys[x as int] by {
            assert(t[i] == s[i]);
        }
        assert(s[s.len() - 1] == s.last());
        lemma_insert_at(t, x, keys, p);
        assert(s.insert(p, x) =~= t.insert(p, x).push(s.last()));
    }
}

/// Sorts `items` by `keys[item]`, keeping the order of equal keys.
pub fn sort_by_key(items: &Vec<usize>, keys: &Vec<i128>) -> (r: Vec<usize>)
    requires
        forall|i: int| 0 <= i < items@.len() ==> (#[trigger] items@[i]) < keys@.len(),
    ensures
        r@ == sorted_by(items@, keys@),
{
    let mut r: Vec<usize> = Vec::new();
    let mut n: usize = 0;
    assert(items@.take(0) =~= Seq::<usize>::empty());
    while n < items.len()
        invariant
            n <= items@.len(),
            r@ == sorted_by(items@.take(n as int), keys@),
            forall|i: int| 0 <= i < items@.len() ==> (#[trigger] items@[i]) < keys@.len(),
            forall|i: int| 0 <= i < r@.len() ==> (#[trigger] r@[i]) < keys@.len(),
        decreases items.len() - n,
    {
        let x: usize = items[n];
        let mut p: usize = r.len();
        while p > 0 && keys[r[p - 1]] > keys[x]
            invariant
                p <= r@.len(),
                x < keys@.len(),
                forall|i: int| 0 <= i < r@.len() ==> (#[trigger] r@[i]) < keys@.len(),
                forall|i: int| p <= i < r@.len() ==> keys@[#[trigger] r@[i] as int] > keys@[x as int],
            decreases p,
        {
            p -= 1;
        }
        let ghost before = r@;
        proof {
            lemma_insert_at(before, x, keys@, p as int);
        }
        r.insert(p, x);
        n += 1;
        assert(items@.take(n as int).drop_last() =~= items@.take(n - 1));
        assert(items@.take(n as int).last() == x);
        assert forall|i: int| 0 <= i < r@.len() implies (#[trigger] r@[i]) < keys@.len() by {
            if i < p {
                assert(r@[i] == before[i]);
            } else if i > p {
                assert(r@[i] == before[i - 1]);
            }
        }
    }
    assert(items@.take(n as int) =~= items@);
    r
}

/// The indices below `n` that satisfy `p`, in ascending order.
pub open spec fn picked(n: nat, p: spec_fn(int) -> bool) -> Seq<usize>
    decreases n,
{
    if n == 0 {
        Seq::empty()
    } else if p(n - 1) {
        picked((n - 1) as nat, p).push((n - 1) as usize)
    } else {
        picked((n - 1) as nat, p)
    }
}

/// Picking ascends and finds exactly the indices that satisfy the predicate.
pub proof fn lemma_picked(n: nat, p: spec_fn(int) -> bool)
    requires
        n <= usize::MAX,
    ensures
        picked(n, p).len() <= n,
        picked(n, p).no_duplicates(),
        forall|i: int| 0 <= i < picked(n, p).len() ==> (#[trigger] picked(n, p)[i]) < n && p(
            picked(n, p)[i] as int,
        ),
        forall|i: int, j: int|
            0 <= i < j < picked(n, p).len() ==> #[trigger] picked(n, p)[i] < #[trigger] picked(n, p)[j],
        forall|x: usize| #[trigger] picked(n, p).contains(x) <==> x < n && p(x as int),
    decreases n,
{
    if n > 0 {
        let m = (n - 1) as nat;
        lemma_picked(m, p);
        let s = picked(m, p);
        if p(m as int) {
            let r = s.push(m as usize);
            assert forall|x: usize| #[trigger] r.contains(x) <==> x < n && p(x as int) by {
                if r.contains(x) {
                    let i = choose|i: int| 0 <= i < r.len() && r[i] == x;
                    if i < s.len() {
                        assert(s[i] == x);
                        assert(s.contains(x));
                    }
                }
                if x < n && p(x as int) {
                    if x < m {
                        assert(s.contains(x));
                        let i = choose|i: int| 0 <= i < s.len() && s[i] == x;
                        assert(r[i] == x);
                    } else {
                        assert(r[s.len() as int] == x);
                    }
                }
            }
        } else {
            assert forall|x: usize| #[trigger] s.contains(x) <==> x < n && p(x as int) by {
            }
        }
    }
}

/// What the first index that satisfies the predicate has to do with picking.
pub proof fn lemma_first_picked(n: nat, p: spec_fn(int) -> bool, i: nat)
    requires
        i <= n <= usize::MAX,
        forall|j: int| 0 <= j < i ==> !#[trigger] p(j),
    ensures
        i == n ==> picked(n, p).len() == 0,
        i < n && p(i as int) ==> picked(n, p).len() > 0 && picked(n, p)[0] == i,
    decreases n,
{
    if n > 0 && i < n {
        lemma_first_picked((n - 1) as nat, p, i);
    } else if n > 0 {
        lemma_first_picked((n - 1) as nat, p, (n - 1) as nat);
        assert(!p(n - 1));
    }
}

/// Whether `items` holds `x`.
pub fn contains(items: &Vec<usize>, x: usize) -> (r: bool)
    ensures
        r == items@.contains(x),
{
    let mut i: usize = 0;
    while i < items.len()
        invariant
            i <= items@.len(),
            forall|j: int| 0 <= j < i ==> items@[j] != x,
        decreases items.len() - i,
    {
        if items[i] == x {
            assert(items@[i as int] == x);
            return true;
        }
        i += 1;
    }
    false
}

/// Where `items` holds `x`.
pub fn index_of(items: &Vec<usize>, x: usize) -> (r: usize)
    requires
        items@.contains(x),
    ensures
        r < items@.len(),
        items@[r as int] == x,
{
    let mut i: usize = 0;
    while items[i] != x
        invariant
            items@.contains(x),
            i < items@.len(),
            forall|j: int| 0 <= j < i ==> items@[j] != x,
        decreases items.len() - i,
    {
        assert(i + 1 < items@.len()) by {
            let w = choose|w: int| 0 <= w < items@.len() && items@[w] == x;
            assert(w > i);
        }
        assert(items@.len() == items.len());
        i += 1;
    }
    i
}

} // verus!
