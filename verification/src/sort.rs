//! Stable sorting by integer keys.

use vstd::prelude::*;

verus! {

/// How many of the positions in `perm` have a key of at most `k`.
pub open spec fn count_le(perm: Seq<int>, keys: Seq<int>, k: int) -> nat
    decreases perm.len(),
{
    if perm.len() == 0 {
        0
    } else {
        count_le(perm.drop_last(), keys, k) + if keys[perm.last()] <= k {
            1nat
        } else {
            0nat
        }
    }
}

/// The positions of `keys` in the order a stable sort by key puts them:
/// each position in turn goes after every earlier position whose key is not
/// greater than its own.
pub open spec fn stable_order(keys: Seq<int>) -> Seq<int>
    decreases keys.len(),
{
    if keys.len() == 0 {
        seq![]
    } else {
        let p = stable_order(keys.drop_last());
        p.insert(count_le(p, keys, keys.last()) as int, keys.len() - 1)
    }
}

/// The elements of `s` in the order of `perm`.
pub open spec fn permute<T>(s: Seq<T>, perm: Seq<int>) -> Seq<T> {
    perm.map_values(|i: int| s[i])
}

/// `s` sorted stably by `keys`.
pub open spec fn sort_by_keys<T>(s: Seq<T>, keys: Seq<int>) -> Seq<T> {
    permute(s, stable_order(keys))
}

/// The keys as integers.
pub open spec fn int_keys(keys: Seq<i128>) -> Seq<int> {
    keys.map_values(|k: i128| k as int)
}

/// The positions as integers.
pub open spec fn int_positions(p: Seq<usize>) -> Seq<int> {
    p.map_values(|i: usize| i as int)
}

pub proof fn lemma_stable_order_len(keys: Seq<int>)
    ensures
        stable_order(keys).len() == keys.len(),
        forall|i: int| 0 <= i < keys.len() ==> 0 <= #[trigger] stable_order(keys)[i] < keys.len(),
    decreases keys.len(),
{
    if keys.len() > 0 {
        let p = stable_order(keys.drop_last());
        lemma_stable_order_len(keys.drop_last());
        lemma_count_le_bound(p, keys, keys.last());
        let q = stable_order(keys);
        assert forall|i: int| 0 <= i < keys.len() implies 0 <= #[trigger] q[i] < keys.len() by {
            let c = count_le(p, keys, keys.last()) as int;
            if i < c {
                assert(q[i] == p[i]);
            } else if i > c {
                assert(q[i] == p[i - 1]);
            }
        }
    }
}

pub proof fn lemma_count_le_bound(perm: Seq<int>, keys: Seq<int>, k: int)
    ensures
        count_le(perm, keys, k) <= perm.len(),
    decreases perm.len(),
{
    if perm.len() > 0 {
        lemma_count_le_bound(perm.drop_last(), keys, k);
    }
}

/// `count_le` depends only on the keys at the positions `perm` holds.
pub proof fn lemma_count_le_keys(perm: Seq<int>, keys1: Seq<int>, keys2: Seq<int>, k: int)
    requires
        forall|i: int| 0 <= i < perm.len() ==> 0 <= #[trigger] perm[i] < keys1.len(),
        keys1.len() <= keys2.len(),
        forall|j: int| 0 <= j < keys1.len() ==> keys1[j] == keys2[j],
    ensures
        count_le(perm, keys1, k) == count_le(perm, keys2, k),
    decreases perm.len(),
{
    if perm.len() > 0 {
        lemma_count_le_keys(perm.drop_last(), keys1, keys2, k);
        assert(0 <= perm.last() < keys1.len());
    }
}

/// The order in which a stable sort by `keys` puts the positions of `keys`.
pub fn stable_order_of(keys: &Vec<i128>) -> (r: Vec<usize>)
    ensures
        int_positions(r@) == stable_order(int_keys(keys@)),
{
    let mut perm: Vec<usize> = Vec::new();
    let mut n: usize = 0;
    while n < keys.len()
        invariant
            n <= keys@.len(),
            int_positions(perm@) == stable_order(int_keys(keys@.take(n as int))),
            perm@.len() == n,
            forall|i: int| 0 <= i < n ==> #[trigger] perm@[i] < n,
        decreases keys@.len() - n,
    {
        let k = keys[n];
        let ghost ks = int_keys(keys@.take(n as int + 1));
        let ghost prev = int_keys(keys@.take(n as int));
        proof {
            assert(ks.drop_last() =~= prev);
            assert(ks.last() == k as int);
            lemma_count_le_keys(int_positions(perm@), prev, ks, k as int);
        }
        let mut c: usize = 0;
        let mut j: usize = 0;
        while j < perm.len()
            invariant
                j <= perm@.len(),
                perm@.len() == n,
                n < keys@.len(),
                c <= j,
                forall|i: int| 0 <= i < n ==> #[trigger] perm@[i] < n,
                c == count_le(int_positions(perm@).take(j as int), ks, k as int),
                ks == int_keys(keys@.take(n as int + 1)),
            decreases perm@.len() - j,
        {
            assert(int_positions(perm@).take(j as int + 1).drop_last() =~= int_positions(perm@).take(j as int));
            if keys[perm[j]] <= k {
                c = c + 1;
            }
            j = j + 1;
        }
        assert(int_positions(perm@).take(perm@.len() as int) =~= int_positions(perm@));
        let ghost old_perm = perm@;
        perm.insert(c, n);
        proof {
            assert(int_positions(perm@) =~= int_positions(old_perm).insert(c as int, n as int));
            assert forall|i: int| 0 <= i < n + 1 implies #[trigger] perm@[i] < n + 1 by {
                if i < c {
                    assert(perm@[i] == old_perm[i]);
                } else if i > c {
                    assert(perm@[i] == old_perm[i - 1]);
                }
            }
        }
        n = n + 1;
    }
    assert(keys@.take(keys@.len() as int) =~= keys@);
    perm
}

/// Whether `p` lists positions of `keys` by key, and positions with equal
/// keys in their own order.
pub open spec fn stably_sorted(p: Seq<int>, keys: Seq<int>) -> bool {
    forall|i: int, j: int|
        0 <= i < j < p.len() ==> keys[#[trigger] p[i]] < keys[#[trigger] p[j]] || (keys[p[i]]
            == keys[p[j]] && p[i] < p[j])
}

/// Whether `p` lists each of the positions `0..n` once.
pub open spec fn is_permutation(p: Seq<int>, n: nat) -> bool {
    &&& p.len() == n
    &&& forall|i: int| 0 <= i < p.len() ==> 0 <= #[trigger] p[i] < n
    &&& forall|i: int, j: int| 0 <= i < j < p.len() ==> #[trigger] p[i] != #[trigger] p[j]
}

/// In positions sorted by key, those with a key of at most `k` come first.
proof fn lemma_count_le_split(p: Seq<int>, keys: Seq<int>, k: int)
    requires
        stably_sorted(p, keys),
    ensures
        forall|i: int| 0 <= i < count_le(p, keys, k) ==> keys[#[trigger] p[i]] <= k,
        forall|i: int| count_le(p, keys, k) <= i < p.len() ==> keys[#[trigger] p[i]] > k,
        count_le(p, keys, k) <= p.len(),
    decreases p.len(),
{
    if p.len() > 0 {
        let q = p.drop_last();
        assert(stably_sorted(q, keys)) by {
            assert forall|i: int, j: int| 0 <= i < j < q.len() implies keys[#[trigger] q[i]] < keys[#[trigger] q[j]] || (keys[q[i]]
                == keys[q[j]] && q[i] < q[j]) by {
                assert(q[i] == p[i] && q[j] == p[j]);
            }
        }
        lemma_count_le_split(q, keys, k);
        let n = p.len() - 1;
        if keys[p.last()] <= k {
            assert forall|i: int| 0 <= i < n implies keys[#[trigger] q[i]] <= k by {
                assert(q[i] == p[i]);
                assert(p[n] == p.last());
                assert(keys[p[i]] < keys[p[n]] || keys[p[i]] == keys[p[n]]);
            }
            if count_le(q, keys, k) < n {
                let i = count_le(q, keys, k) as int;
                assert(keys[q[i]] > k);
            }
        }
        assert forall|i: int| 0 <= i < count_le(p, keys, k) implies keys[#[trigger] p[i]] <= k by {
            if i < n {
                assert(p[i] == q[i]);
            }
        }
        assert forall|i: int| count_le(p, keys, k) <= i < p.len() implies keys[#[trigger] p[i]] > k by {
            if i < n {
                assert(p[i] == q[i]);
            }
        }
    }
}

/// A stable sort puts positions in order of key, and positions with equal
/// keys in their own order; and it lists each position once.
pub proof fn lemma_stable_order_sorted(keys: Seq<int>)
    ensures
        stably_sorted(stable_order(keys), keys),
        is_permutation(stable_order(keys), keys.len()),
    decreases keys.len(),
{
    lemma_stable_order_len(keys);
    if keys.len() > 0 {
        let ks = keys.drop_last();
        let p = stable_order(ks);
        lemma_stable_order_sorted(ks);
        lemma_stable_order_len(ks);
        let n = keys.len() - 1;
        let k = keys.last();
        assert(stably_sorted(p, keys)) by {
            assert forall|i: int, j: int| 0 <= i < j < p.len() implies keys[#[trigger] p[i]] < keys[#[trigger] p[j]] || (keys[p[i]]
                == keys[p[j]] && p[i] < p[j]) by {
                assert(0 <= p[i] < n && 0 <= p[j] < n);
                assert(keys[p[i]] == ks[p[i]] && keys[p[j]] == ks[p[j]]);
            }
        }
        lemma_count_le_split(p, keys, k);
        let c = count_le(p, keys, k) as int;
        let q = stable_order(keys);
        assert(q == p.insert(c, n));
        assert forall|i: int, j: int| 0 <= i < j < q.len() implies keys[#[trigger] q[i]] < keys[#[trigger] q[j]] || (keys[q[i]]
            == keys[q[j]] && q[i] < q[j]) by {
            if j < c {
                assert(q[i] == p[i] && q[j] == p[j]);
            } else if j == c {
                assert(q[i] == p[i] && q[j] == n);
                assert(0 <= p[i] < n);
            } else if i < c {
                assert(q[i] == p[i] && q[j] == p[j - 1]);
            } else if i == c {
                assert(q[i] == n && q[j] == p[j - 1]);
            } else {
                assert(q[i] == p[i - 1] && q[j] == p[j - 1]);
            }
        }
        assert forall|i: int, j: int| 0 <= i < j < q.len() implies #[trigger] q[i] != #[trigger] q[j] by {
            if j < c {
                assert(q[i] == p[i] && q[j] == p[j]);
            } else if j == c {
                assert(q[i] == p[i] && q[j] == n);
                assert(0 <= p[i] < n);
            } else if i < c {
                assert(q[i] == p[i] && q[j] == p[j - 1]);
            } else if i == c {
                assert(q[i] == n && q[j] == p[j - 1]);
                assert(0 <= p[j - 1] < n);
            } else {
                assert(q[i] == p[i - 1] && q[j] == p[j - 1]);
            }
        }
    }
}

/// Sorting by keys orders the elements by key, keeps elements with equal
/// keys in their order, and gives each element once.
pub proof fn lemma_sort_by_keys_sorted<T>(s: Seq<T>, keys: Seq<int>)
    requires
        keys.len() == s.len(),
    ensures
        sort_by_keys(s, keys).len() == s.len(),
        forall|i: int, j: int|
            0 <= i < j < s.len() ==> keys[stable_order(keys)[i]] <= keys[stable_order(keys)[j]],
        forall|i: int| 0 <= i < s.len() ==> #[trigger] sort_by_keys(s, keys)[i] == s[stable_order(keys)[i]],
        is_permutation(stable_order(keys), keys.len()),
{
    lemma_stable_order_sorted(keys);
    lemma_stable_order_len(keys);
    let p = stable_order(keys);
    assert forall|i: int, j: int| 0 <= i < j < s.len() implies keys[p[i]] <= keys[p[j]] by {
        assert(keys[p[i]] < keys[p[j]] || keys[p[i]] == keys[p[j]]);
    }
}

/// Every position of `keys` has its place in the stable order.
pub proof fn lemma_stable_order_covers(keys: Seq<int>, x: int)
    requires
        0 <= x < keys.len(),
    ensures
        stable_order(keys).contains(x),
    decreases keys.len(),
{
    let p = stable_order(keys.drop_last());
    let c = count_le(p, keys, keys.last()) as int;
    lemma_count_le_bound(p, keys, keys.last());
    lemma_stable_order_len(keys.drop_last());
    let q = stable_order(keys);
    if x == keys.len() - 1 {
        assert(q[c] == x);
    } else {
        lemma_stable_order_covers(keys.drop_last(), x);
        let i = choose|i: int| 0 <= i < p.len() && p[i] == x;
        if i < c {
            assert(q[i] == x);
        } else {
            assert(q[i + 1] == x);
        }
    }
}

} // verus!
