//! Stable ordering of items by a two-part key (compared first part first),
//! used by the production scheduler and the work-order schedule.
use vstd::prelude::*;

verus! {

/// A sort key: compared by its first part, then by its second.
pub type SortKey = (u64, u64);

/// `a` sorts strictly before `b`.
pub open spec fn key_lt(a: SortKey, b: SortKey) -> bool {
    a.0 < b.0 || (a.0 == b.0 && a.1 < b.1)
}

/// Inserts index `x` into the index sequence `s`: scanning from the end,
/// `x` moves in front of every index whose key sorts strictly after its
/// key, and stops behind the first one that does not.
pub open spec fn insert_sorted(keys: Seq<SortKey>, s: Seq<usize>, x: usize) -> Seq<usize>
    decreases s.len(),
{
    if s.len() == 0 {
        seq![x]
    } else if key_lt(keys[x as int], keys[s.last() as int]) {
        insert_sorted(keys, s.drop_last(), x).push(s.last())
    } else {
        s.push(x)
    }
}

/// The indices `0 .. n` of `keys` in stable sorted order: inserted one after
/// the other, each after all earlier indices whose key does not sort after
/// it.
pub open spec fn sorted_order(keys: Seq<SortKey>, n: nat) -> Seq<usize>
    decreases n,
{
    if n == 0 {
        Seq::empty()
    } else {
        insert_sorted(keys, sorted_order(keys, (n - 1) as nat), (n - 1) as usize)
    }
}

fn key_lt_exec(a: SortKey, b: SortKey) -> (r: bool)
    ensures
        r == key_lt(a, b),
{
    a.0 < b.0 || (a.0 == b.0 && a.1 < b.1)
}

/// Unfolds one step of `insert_sorted` when the key of `x` sorts before the
/// key at position `j - 1`.
proof fn lemma_insert_step(keys: Seq<SortKey>, s: Seq<usize>, x: usize, j: int)
    requires
        0 < j <= s.len(),
        key_lt(keys[x as int], keys[s[j - 1] as int]),
    ensures
        insert_sorted(keys, s.take(j), x) + s.skip(j) == insert_sorted(keys, s.take(j - 1), x)
            + s.skip(j - 1),
{
    let t = s.take(j);
    assert(t.drop_last() =~= s.take(j - 1));
    assert(t.last() == s[j - 1]);
    assert(insert_sorted(keys, t, x) == insert_sorted(keys, s.take(j - 1), x).push(s[j - 1]));
    assert(insert_sorted(keys, s.take(j - 1), x).push(s[j - 1]) + s.skip(j) =~= insert_sorted(
        keys,
        s.take(j - 1),
        x,
    ) + s.skip(j - 1));
}

/// The positions `0 .. keys.len()` in stable sorted order of their keys.
pub fn stable_order(keys: &Vec<SortKey>) -> (order: Vec<usize>)
    ensures
        order@ == sorted_order(keys@, keys@.len()),
{
    let n = keys.len();
    let mut out: Vec<usize> = Vec::new();
    let mut i: usize = 0;
    while i < n
        invariant
            n == keys@.len(),
            0 <= i <= n,
            out@ == sorted_order(keys@, i as nat),
            forall|k: int| 0 <= k < out@.len() ==> #[trigger] out@[k] < i,
            out@.len() == i,
        decreases n - i,
    {
        let ghost s = out@;
        let mut j: usize = out.len();
        assert(s.take(j as int) =~= s);
        assert(s.skip(j as int) =~= Seq::<usize>::empty());
        assert(insert_sorted(keys@, s, i) + Seq::<usize>::empty() =~= insert_sorted(keys@, s, i));
        while j > 0 && key_lt_exec(keys[i], keys[out[j - 1]])
            invariant
                out@ == s,
                i < n == keys@.len(),
                forall|k: int| 0 <= k < s.len() ==> #[trigger] s[k] < i,
                0 <= j <= s.len(),
                insert_sorted(keys@, s, i) == insert_sorted(keys@, s.take(j as int), i) + s.skip(
                    j as int,
                ),
            decreases j,
        {
            proof {
                lemma_insert_step(keys@, s, i, j as int);
            }
            j = j - 1;
        }
        proof {
            let t = s.take(j as int);
            if j > 0 {
                assert(t.last() == s[j - 1]);
            }
            assert(insert_sorted(keys@, t, i) == t.push(i));
        }
        out.insert(j, i);
        assert(out@ =~= s.take(j as int).push(i) + s.skip(j as int));
        assert(sorted_order(keys@, (i + 1) as nat) == insert_sorted(keys@, s, i));
        assert forall|k: int| 0 <= k < out@.len() implies #[trigger] out@[k] < i + 1 by {
            if k < j {
                assert(out@[k] == s[k]);
            } else if k > j {
                assert(out@[k] == s[k - 1]);
            }
        }
        i = i + 1;
    }
    out
}

/// Inserting an index below `b` into indices below `b` adds one element and
/// keeps every index below `b`.
proof fn lemma_insert_sorted_bound(keys: Seq<SortKey>, s: Seq<usize>, x: usize, b: int)
    requires
        x < b,
        forall|k: int| 0 <= k < s.len() ==> #[trigger] s[k] < b,
    ensures
        insert_sorted(keys, s, x).len() == s.len() + 1,
        forall|m: int| 0 <= m < s.len() + 1 ==> #[trigger] insert_sorted(keys, s, x)[m] < b,
    decreases s.len(),
{
    if s.len() > 0 && key_lt(keys[x as int], keys[s.last() as int]) {
        lemma_insert_sorted_bound(keys, s.drop_last(), x, b);
    }
}

/// The stable sorted order of `n` keys holds `n` indices, each below `n`.
pub proof fn lemma_sorted_order_indices(keys: Seq<SortKey>, n: nat)
    ensures
        sorted_order(keys, n).len() == n,
        forall|m: int| 0 <= m < n ==> #[trigger] sorted_order(keys, n)[m] < n,
    decreases n,
{
    if n > 0 {
        lemma_sorted_order_indices(keys, (n - 1) as nat);
        lemma_insert_sorted_bound(keys, sorted_order(keys, (n - 1) as nat), (n - 1) as usize, n as int);
    }
}

/// `s` lists indices in non-decreasing key order.
pub open spec fn is_sorted_by(keys: Seq<SortKey>, s: Seq<usize>) -> bool {
    forall|p: int, q: int|
        0 <= p < q < s.len() ==> !key_lt(#[trigger] keys[s[q] as int], #[trigger] keys[s[p] as int])
}

/// Indices with equal keys appear in `s` in increasing order.
pub open spec fn is_stable(keys: Seq<SortKey>, s: Seq<usize>) -> bool {
    forall|p: int, q: int|
        0 <= p < q < s.len() && keys[s[p] as int] == keys[s[q] as int] ==> #[trigger] s[p] < #[trigger] s[q]
}

/// `s` lists each of the indices `0 .. n` exactly once.
pub open spec fn is_permutation_of_range(s: Seq<usize>, n: nat) -> bool {
    &&& s.len() == n
    &&& s.no_duplicates()
    &&& forall|k: int| 0 <= k < s.len() ==> #[trigger] s[k] < n
}

/// `insert_sorted` places `x` at some position `j`: every index after it has
/// a key sorting strictly after the key of `x`, and the index just before
/// it (if any) does not.
proof fn lemma_insert_split(keys: Seq<SortKey>, s: Seq<usize>, x: usize) -> (j: int)
    ensures
        0 <= j <= s.len(),
        insert_sorted(keys, s, x) == s.take(j).push(x) + s.skip(j),
        forall|k: int| j <= k < s.len() ==> key_lt(keys[x as int], #[trigger] keys[s[k] as int]),
        j > 0 ==> !key_lt(keys[x as int], keys[s[j - 1] as int]),
    decreases s.len(),
{
    if s.len() == 0 {
        assert(s.take(0).push(x) + s.skip(0) =~= seq![x]);
        0
    } else if key_lt(keys[x as int], keys[s.last() as int]) {
        let t = s.drop_last();
        let j = lemma_insert_split(keys, t, x);
        assert(t.take(j) =~= s.take(j));
        assert((t.take(j).push(x) + t.skip(j)).push(s.last()) =~= s.take(j).push(x) + s.skip(j));
        assert forall|k: int| j <= k < s.len() implies key_lt(keys[x as int], #[trigger] keys[s[k] as int]) by {
            if k < s.len() - 1 {
                assert(s[k] == t[k]);
            }
        }
        if j > 0 {
            assert(s[j - 1] == t[j - 1]);
        }
        j
    } else {
        let j = s.len() as int;
        assert(s.take(j) =~= s);
        assert(s.skip(j) =~= Seq::<usize>::empty());
        assert(s.take(j).push(x) + s.skip(j) =~= s.push(x));
        j
    }
}

/// Inserting an index larger than all others into a sorted, stable,
/// duplicate-free sequence keeps it sorted, stable and duplicate-free.
proof fn lemma_insert_sorted_props(keys: Seq<SortKey>, s: Seq<usize>, x: usize)
    requires
        (x as int) < keys.len(),
        forall|k: int| 0 <= k < s.len() ==> #[trigger] s[k] < x,
        is_sorted_by(keys, s),
        is_stable(keys, s),
        s.no_duplicates(),
    ensures
        is_sorted_by(keys, insert_sorted(keys, s, x)),
        is_stable(keys, insert_sorted(keys, s, x)),
        insert_sorted(keys, s, x).no_duplicates(),
{
    let j = lemma_insert_split(keys, s, x);
    let r = insert_sorted(keys, s, x);
    assert(r.len() == s.len() + 1);
    assert forall|k: int| 0 <= k < r.len() implies #[trigger] r[k] == (if k < j { s[k] } else if k == j { x } else { s[k - 1] }) by {}
    // Every index before position j has a key not after the key of x.
    assert forall|p: int| 0 <= p < j implies !key_lt(keys[x as int], #[trigger] keys[s[p] as int]) by {
        if p < j - 1 {
            assert(!key_lt(keys[s[j - 1] as int], keys[s[p] as int]));
        }
    }
    assert forall|p: int, q: int| 0 <= p < q < r.len() implies !key_lt(#[trigger] keys[r[q] as int], #[trigger] keys[r[p] as int]) by {
        if q < j {
        } else if q == j {
        } else if p < j {
            assert(!key_lt(keys[x as int], keys[s[p] as int]));
            assert(key_lt(keys[x as int], keys[s[q - 1] as int]));
        } else if p == j {
            assert(key_lt(keys[x as int], keys[s[q - 1] as int]));
        } else {
            assert(!key_lt(keys[s[q - 1] as int], keys[s[p - 1] as int]));
        }
    }
    assert forall|p: int, q: int| 0 <= p < q < r.len() && keys[r[p] as int] == keys[r[q] as int] implies #[trigger] r[p] < #[trigger] r[q] by {
        if q < j {
            assert(s[p] < s[q]);
        } else if q == j {
            assert(s[p] < x);
        } else if p < j {
            assert(s[p] < s[q - 1]);
        } else if p == j {
            assert(key_lt(keys[x as int], keys[s[q - 1] as int]));
        } else {
            assert(s[p - 1] < s[q - 1]);
        }
    }
    assert forall|p: int, q: int| 0 <= p < r.len() && 0 <= q < r.len() && p != q implies r[p] != r[q] by {
        if p < j && q > j {
            assert(s[p] != s[q - 1]);
        } else if p > j && q < j {
            assert(s[p - 1] != s[q]);
        } else if p < j && q < j {
        } else if p > j && q > j {
        }
    }
}

/// The stable sorted order of the first `n` keys lists each index below
/// `n` once, in non-decreasing key order, indices with equal keys in
/// increasing order.
pub proof fn lemma_sorted_order_correct(keys: Seq<SortKey>, n: nat)
    requires
        n <= keys.len(),
        n <= usize::MAX,
    ensures
        is_permutation_of_range(sorted_order(keys, n), n),
        is_sorted_by(keys, sorted_order(keys, n)),
        is_stable(keys, sorted_order(keys, n)),
    decreases n,
{
    lemma_sorted_order_indices(keys, n);
    if n > 0 {
        let prev = sorted_order(keys, (n - 1) as nat);
        lemma_sorted_order_correct(keys, (n - 1) as nat);
        lemma_insert_sorted_props(keys, prev, (n - 1) as usize);
    }
}

} // verus!
