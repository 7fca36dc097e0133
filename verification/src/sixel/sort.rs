//! Stable sorting by a one-byte key.
//!
//! Median-cut quantisation orders pixels by one colour channel and colour boxes by
//! their extent. Both keys are bytes, so a stable sort is a bucket sort: the
//! elements with key 0 in their original order, then those with key 1, and so on.

use vstd::prelude::*;

verus! {

/// The elements among the first `n` of `s` whose key is `k`, in their original order.
pub open spec fn select_key<T>(s: Seq<T>, keys: Seq<u8>, k: u8, n: nat) -> Seq<T>
    decreases n,
{
    if n == 0 {
        seq![]
    } else {
        let p = select_key(s, keys, k, (n - 1) as nat);
        if keys[n - 1] == k {
            p.push(s[n - 1])
        } else {
            p
        }
    }
}

/// The groups of keys `0 .. k`, one after the other.
pub open spec fn groups_below<T>(s: Seq<T>, keys: Seq<u8>, k: nat) -> Seq<T>
    decreases k,
{
    if k == 0 {
        seq![]
    } else {
        groups_below(s, keys, (k - 1) as nat) + select_key(s, keys, (k - 1) as u8, s.len())
    }
}

/// `s` stably sorted by ascending key, `keys[i]` being the key of `s[i]`.
pub open spec fn sort_by_keys<T>(s: Seq<T>, keys: Seq<u8>) -> Seq<T> {
    groups_below(s, keys, 256)
}

/// Number of the first `n` keys that are below `k`.
pub open spec fn count_below(keys: Seq<u8>, k: nat, n: nat) -> nat
    decreases n,
{
    if n == 0 {
        0
    } else {
        count_below(keys, k, (n - 1) as nat) + if (keys[n - 1] as nat) < k { 1nat } else { 0nat }
    }
}

/// Number of the first `n` keys equal to `k`.
pub open spec fn count_eq(keys: Seq<u8>, k: u8, n: nat) -> nat
    decreases n,
{
    if n == 0 {
        0
    } else {
        count_eq(keys, k, (n - 1) as nat) + if keys[n - 1] == k { 1nat } else { 0nat }
    }
}

proof fn lemma_select_len<T>(s: Seq<T>, keys: Seq<u8>, k: u8, n: nat)
    ensures
        select_key(s, keys, k, n).len() == count_eq(keys, k, n),
    decreases n,
{
    if n > 0 {
        lemma_select_len(s, keys, k, (n - 1) as nat);
    }
}

proof fn lemma_count_below_step(keys: Seq<u8>, k: nat, n: nat)
    requires
        k < 256,
    ensures
        count_below(keys, k + 1, n) == count_below(keys, k, n) + count_eq(keys, k as u8, n),
    decreases n,
{
    if n > 0 {
        lemma_count_below_step(keys, k, (n - 1) as nat);
    }
}

proof fn lemma_count_below_all(keys: Seq<u8>, n: nat)
    ensures
        count_below(keys, 256, n) == n,
    decreases n,
{
    if n > 0 {
        lemma_count_below_all(keys, (n - 1) as nat);
    }
}

proof fn lemma_groups_len<T>(s: Seq<T>, keys: Seq<u8>, k: nat)
    requires
        k <= 256,
    ensures
        groups_below(s, keys, k).len() == count_below(keys, k, s.len()),
    decreases k,
{
    if k == 0 {
        lemma_count_zero(keys, s.len());
    } else {
        lemma_groups_len(s, keys, (k - 1) as nat);
        lemma_select_len(s, keys, (k - 1) as u8, s.len());
        lemma_count_below_step(keys, (k - 1) as nat, s.len());
    }
}

proof fn lemma_count_zero(keys: Seq<u8>, n: nat)
    ensures
        count_below(keys, 0, n) == 0,
    decreases n,
{
    if n > 0 {
        lemma_count_zero(keys, (n - 1) as nat);
    }
}

/// Sorting keeps the number of elements.
pub proof fn lemma_sort_len<T>(s: Seq<T>, keys: Seq<u8>)
    ensures
        sort_by_keys(s, keys).len() == s.len(),
{
    lemma_groups_len(s, keys, 256);
    lemma_count_below_all(keys, s.len());
}

proof fn lemma_select_prop<T>(s: Seq<T>, keys: Seq<u8>, k: u8, n: nat, p: spec_fn(T) -> bool)
    requires
        n <= s.len(),
        forall|i: int| 0 <= i < s.len() ==> p(#[trigger] s[i]),
    ensures
        forall|j: int| 0 <= j < select_key(s, keys, k, n).len() ==> p(#[trigger] select_key(s, keys, k, n)[j]),
    decreases n,
{
    if n > 0 {
        lemma_select_prop(s, keys, k, (n - 1) as nat, p);
        let q = select_key(s, keys, k, (n - 1) as nat);
        if keys[n - 1] == k {
            assert forall|j: int| 0 <= j < q.push(s[n - 1]).len() implies p(#[trigger] q.push(s[n - 1])[j]) by {
                if j < q.len() {
                    assert(q.push(s[n - 1])[j] == q[j]);
                }
            }
        }
    }
}

proof fn lemma_groups_prop<T>(s: Seq<T>, keys: Seq<u8>, k: nat, p: spec_fn(T) -> bool)
    requires
        k <= 256,
        forall|i: int| 0 <= i < s.len() ==> p(#[trigger] s[i]),
    ensures
        forall|j: int| 0 <= j < groups_below(s, keys, k).len() ==> p(#[trigger] groups_below(s, keys, k)[j]),
    decreases k,
{
    if k > 0 {
        lemma_groups_prop(s, keys, (k - 1) as nat, p);
        lemma_select_prop(s, keys, (k - 1) as u8, s.len(), p);
        let a = groups_below(s, keys, (k - 1) as nat);
        let b = select_key(s, keys, (k - 1) as u8, s.len());
        assert forall|j: int| 0 <= j < (a + b).len() implies p(#[trigger] (a + b)[j]) by {
            if j < a.len() {
                assert((a + b)[j] == a[j]);
            } else {
                assert((a + b)[j] == b[j - a.len()]);
            }
        }
    }
}

/// Every element of the sorted sequence has each property that all elements of
/// the input have.
pub proof fn lemma_sort_prop<T>(s: Seq<T>, keys: Seq<u8>, p: spec_fn(T) -> bool)
    requires
        forall|i: int| 0 <= i < s.len() ==> p(#[trigger] s[i]),
    ensures
        forall|j: int| 0 <= j < sort_by_keys(s, keys).len() ==> p(#[trigger] sort_by_keys(s, keys)[j]),
{
    lemma_groups_prop(s, keys, 256, p);
}

proof fn lemma_select_keys<T>(s: Seq<T>, keys: Seq<u8>, k: u8, n: nat, f: spec_fn(T) -> u8)
    requires
        n <= s.len(),
        s.len() == keys.len(),
        forall|i: int| 0 <= i < s.len() ==> #[trigger] keys[i] == f(s[i]),
    ensures
        forall|j: int| 0 <= j < select_key(s, keys, k, n).len() ==> f(#[trigger] select_key(s, keys, k, n)[j]) == k,
    decreases n,
{
    if n > 0 {
        lemma_select_keys(s, keys, k, (n - 1) as nat, f);
        let q = select_key(s, keys, k, (n - 1) as nat);
        if keys[n - 1] == k {
            assert(keys[n - 1] == f(s[n - 1]));
            assert forall|j: int| 0 <= j < q.push(s[n - 1]).len() implies f(#[trigger] q.push(s[n - 1])[j]) == k by {
                if j < q.len() {
                    assert(q.push(s[n - 1])[j] == q[j]);
                }
            }
        }
    }
}

proof fn lemma_groups_sorted<T>(s: Seq<T>, keys: Seq<u8>, k: nat, f: spec_fn(T) -> u8)
    requires
        k <= 256,
        s.len() == keys.len(),
        forall|i: int| 0 <= i < s.len() ==> #[trigger] keys[i] == f(s[i]),
    ensures
        forall|j: int| 0 <= j < groups_below(s, keys, k).len() ==> (f(#[trigger] groups_below(s, keys, k)[j]) as nat) < k,
        forall|a: int, b: int|
            0 <= a < b < groups_below(s, keys, k).len() ==> f(#[trigger] groups_below(s, keys, k)[a]) <= f(
                #[trigger] groups_below(s, keys, k)[b],
            ),
    decreases k,
{
    if k > 0 {
        lemma_groups_sorted(s, keys, (k - 1) as nat, f);
        lemma_select_keys(s, keys, (k - 1) as u8, s.len(), f);
        let a = groups_below(s, keys, (k - 1) as nat);
        let b = select_key(s, keys, (k - 1) as u8, s.len());
        let g = a + b;
        assert(groups_below(s, keys, k) == g);
        assert forall|j: int| 0 <= j < g.len() implies (f(#[trigger] g[j]) as nat) < k by {
            if j < a.len() {
                assert(g[j] == a[j]);
            } else {
                assert(g[j] == b[j - a.len()]);
            }
        }
        assert forall|x: int, y: int| 0 <= x < y < g.len() implies f(#[trigger] g[x]) <= f(#[trigger] g[y]) by {
            if y < a.len() {
                assert(g[x] == a[x] && g[y] == a[y]);
            } else if x < a.len() {
                assert(g[x] == a[x] && g[y] == b[y - a.len()]);
            } else {
                assert(g[x] == b[x - a.len()] && g[y] == b[y - a.len()]);
            }
        }
    }
}

/// The sorted sequence is ordered by key: `f` giving each element's key, an
/// earlier element never has a larger key than a later one.
pub proof fn lemma_sort_sorted<T>(s: Seq<T>, keys: Seq<u8>, f: spec_fn(T) -> u8)
    requires
        s.len() == keys.len(),
        forall|i: int| 0 <= i < s.len() ==> #[trigger] keys[i] == f(s[i]),
    ensures
        forall|a: int, b: int|
            0 <= a < b < sort_by_keys(s, keys).len() ==> f(#[trigger] sort_by_keys(s, keys)[a]) <= f(
                #[trigger] sort_by_keys(s, keys)[b],
            ),
{
    lemma_groups_sorted(s, keys, 256, f);
}

proof fn lemma_select_map<T, U>(s: Seq<T>, keys: Seq<u8>, k: u8, n: nat, f: spec_fn(T) -> U)
    requires
        n <= s.len(),
    ensures
        select_key(s.map_values(f), keys, k, n) == select_key(s, keys, k, n).map_values(f),
    decreases n,
{
    if n > 0 {
        lemma_select_map(s, keys, k, (n - 1) as nat, f);
        let q = select_key(s, keys, k, (n - 1) as nat);
        assert(q.push(s[n - 1]).map_values(f) =~= q.map_values(f).push(f(s[n - 1])));
    }
}

proof fn lemma_groups_map<T, U>(s: Seq<T>, keys: Seq<u8>, k: nat, f: spec_fn(T) -> U)
    ensures
        groups_below(s.map_values(f), keys, k) == groups_below(s, keys, k).map_values(f),
    decreases k,
{
    if k > 0 {
        lemma_groups_map(s, keys, (k - 1) as nat, f);
        lemma_select_map(s, keys, (k - 1) as u8, s.len(), f);
        let a = groups_below(s, keys, (k - 1) as nat);
        let b = select_key(s, keys, (k - 1) as u8, s.len());
        assert((a + b).map_values(f) =~= a.map_values(f) + b.map_values(f));
    }
}

/// Sorting commutes with applying a function to every element.
pub proof fn lemma_sort_map<T, U>(s: Seq<T>, keys: Seq<u8>, f: spec_fn(T) -> U)
    ensures
        sort_by_keys(s.map_values(f), keys) == sort_by_keys(s, keys).map_values(f),
{
    lemma_groups_map(s, keys, 256, f);
}

proof fn lemma_select_single<T>(s: Seq<T>, keys: Seq<u8>, k: u8)
    requires
        s.len() == 1,
    ensures
        select_key(s, keys, k, 1) == (if keys[0] == k { s } else { Seq::<T>::empty() }),
{
    assert(select_key(s, keys, k, 0) == Seq::<T>::empty());
    if keys[0] == k {
        assert(Seq::<T>::empty().push(s[0]) =~= s);
    }
}

proof fn lemma_groups_single<T>(s: Seq<T>, keys: Seq<u8>, k: nat)
    requires
        s.len() == 1,
        k <= 256,
    ensures
        groups_below(s, keys, k) == (if (keys[0] as nat) < k { s } else { Seq::<T>::empty() }),
    decreases k,
{
    if k > 0 {
        lemma_groups_single(s, keys, (k - 1) as nat);
        lemma_select_single(s, keys, (k - 1) as u8);
        let a = groups_below(s, keys, (k - 1) as nat);
        let b = select_key(s, keys, (k - 1) as u8, s.len());
        assert(a + b =~= (if (keys[0] as nat) < k { s } else { Seq::<T>::empty() }));
    }
}

proof fn lemma_groups_empty<T>(s: Seq<T>, keys: Seq<u8>, k: nat)
    requires
        s.len() == 0,
    ensures
        groups_below(s, keys, k) == Seq::<T>::empty(),
    decreases k,
{
    if k > 0 {
        lemma_groups_empty(s, keys, (k - 1) as nat);
        assert(groups_below(s, keys, k) =~= Seq::<T>::empty());
    }
}

/// Sorting at most one element changes nothing.
pub proof fn lemma_sort_small<T>(s: Seq<T>, keys: Seq<u8>)
    requires
        s.len() <= 1,
    ensures
        sort_by_keys(s, keys) == s,
{
    if s.len() == 0 {
        lemma_groups_empty(s, keys, 256);
        assert(s =~= Seq::<T>::empty());
    } else {
        lemma_groups_single(s, keys, 256);
    }
}

/// Stable sort of a copyable sequence by the byte keys `keys` (`keys[i]` belongs to `v[i]`).
pub fn sort_copy_by_keys<T: Copy>(v: &Vec<T>, keys: &Vec<u8>) -> (res: Vec<T>)
    requires
        keys.len() == v.len(),
    ensures
        res@ == sort_by_keys(v@, keys@),
{
    let mut buckets: Vec<Vec<T>> = Vec::new();
    let mut k: usize = 0;
    while k < 256
        invariant
            0 <= k <= 256,
            buckets.len() == k,
            forall|j: int| 0 <= j < k ==> (#[trigger] buckets@[j])@ == Seq::<T>::empty(),
        decreases 256 - k,
    {
        buckets.push(Vec::new());
        k = k + 1;
    }
    let mut i: usize = 0;
    while i < v.len()
        invariant
            0 <= i <= v.len(),
            keys.len() == v.len(),
            buckets.len() == 256,
            forall|j: int| 0 <= j < 256 ==> (#[trigger] buckets@[j])@ == select_key(v@, keys@, j as u8, i as nat),
        decreases v.len() - i,
    {
        let kk: usize = keys[i] as usize;
        buckets[kk].push(v[i]);
        proof {
            assert forall|j: int| 0 <= j < 256 implies (#[trigger] buckets@[j])@ == select_key(v@, keys@, j as u8, (i + 1) as nat) by {
                if j != kk {
                    assert(keys@[i as int] != j as u8);
                }
            }
        }
        i = i + 1;
    }
    let mut res: Vec<T> = Vec::new();
    let mut k: usize = 0;
    while k < 256
        invariant
            0 <= k <= 256,
            buckets.len() == 256,
            forall|j: int| k <= j < 256 ==> (#[trigger] buckets@[j])@ == select_key(v@, keys@, j as u8, v.len() as nat),
            res@ == groups_below(v@, keys@, k as nat),
        decreases 256 - k,
    {
        res.append(&mut buckets[k]);
        k = k + 1;
    }
    res
}

/// Stable sort of an owned vector by the byte keys `keys` (`keys[i]` belongs to `v[i]`).
pub fn sort_owned_by_keys<T>(v: Vec<T>, keys: &Vec<u8>) -> (res: Vec<T>)
    requires
        keys.len() == v.len(),
    ensures
        res@ == sort_by_keys(v@, keys@),
{
    let ghost orig = v@;
    let mut v = v;
    let mut buckets: Vec<Vec<T>> = Vec::new();
    let mut k: usize = 0;
    while k < 256
        invariant
            0 <= k <= 256,
            buckets.len() == k,
            forall|j: int| 0 <= j < k ==> (#[trigger] buckets@[j])@ == Seq::<T>::empty(),
        decreases 256 - k,
    {
        buckets.push(Vec::new());
        k = k + 1;
    }
    let n = v.len();
    let mut i: usize = 0;
    while i < n
        invariant
            0 <= i <= n,
            n == orig.len(),
            keys.len() == n,
            v@ == orig.skip(i as int),
            buckets.len() == 256,
            forall|j: int| 0 <= j < 256 ==> (#[trigger] buckets@[j])@ == select_key(orig, keys@, j as u8, i as nat),
        decreases n - i,
    {
        let x = v.remove(0);
        assert(x == orig[i as int]);
        let kk: usize = keys[i] as usize;
        buckets[kk].push(x);
        proof {
            assert(v@ =~= orig.skip(i + 1));
            assert forall|j: int| 0 <= j < 256 implies (#[trigger] buckets@[j])@ == select_key(orig, keys@, j as u8, (i + 1) as nat) by {
                if j != kk {
                    assert(keys@[i as int] != j as u8);
                }
            }
        }
        i = i + 1;
    }
    let mut res: Vec<T> = Vec::new();
    let mut k: usize = 0;
    while k < 256
        invariant
            0 <= k <= 256,
            buckets.len() == 256,
            n == orig.len(),
            forall|j: int| k <= j < 256 ==> (#[trigger] buckets@[j])@ == select_key(orig, keys@, j as u8, n as nat),
            res@ == groups_below(orig, keys@, k as nat),
        decreases 256 - k,
    {
        res.append(&mut buckets[k]);
        k = k + 1;
    }
    res
}

} // verus!
