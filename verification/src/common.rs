//! Common type aliases and arithmetic helpers shared by the modules.
use vstd::prelude::*;

verus! {

/// Identifier of a SKU, purchase order or work order.
pub type Id = u64;

/// Amount of money in minor currency units.
pub type Money = i64;

/// Seconds since an arbitrary epoch.
pub type Timestamp = u64;

/// The item with the given id in a collection whose ids are assigned 1, 2,
/// 3, ... in order of addition: the item at position `id - 1`, if any.
pub open spec fn lookup<T>(items: Seq<T>, id: Id) -> Option<T> {
    if 1 <= id <= items.len() { Some(items[id - 1]) } else { None }
}

/// An item added to such a collection is found under the next id, and
/// every other id finds what it found before.
pub proof fn lemma_lookup_after_add<T>(items: Seq<T>, item: T, other: Id)
    requires
        items.len() < u64::MAX,
    ensures
        lookup(items.push(item), (items.len() + 1) as Id) == Some(item),
        other != items.len() + 1 ==> lookup(items.push(item), other) == lookup(items, other),
{
}

/// Writing through the reference to an item is read back under its id,
/// and every other id finds what it found before.
pub proof fn lemma_lookup_after_update<T>(items: Seq<T>, id: Id, item: T, other: Id)
    requires
        lookup(items, id) is Some,
    ensures
        lookup(items.update(id - 1, item), id) == Some(item),
        other != id ==> lookup(items.update(id - 1, item), other) == lookup(items, other),
{
}

/// Whether a mathematical integer fits in an `i64`.
pub open spec fn fits_i64(x: int) -> bool {
    i64::MIN <= x <= i64::MAX
}

/// Whether a mathematical integer fits in a `u64`.
pub open spec fn fits_u64(x: int) -> bool {
    0 <= x <= u64::MAX
}

/// Sum of a sequence of integers, added front to back.
pub open spec fn sum(s: Seq<int>) -> int
    decreases s.len(),
{
    if s.len() == 0 { 0 } else { sum(s.drop_last()) + s.last() }
}

/// Adding the terms of `s` front to back stays within `i64`: every partial
/// sum fits.
pub open spec fn sum_fits(s: Seq<int>) -> bool {
    forall|k: int| 0 <= k <= s.len() ==> #[trigger] fits_i64(sum(s.take(k)))
}

/// Integer division rounding toward zero, as Rust's `/` on signed integers.
pub open spec fn trunc_div(a: int, b: int) -> int {
    let q = abs(a) / abs(b);
    if (a >= 0) == (b > 0) { q } else { -q }
}

/// Absolute value of a mathematical integer.
pub open spec fn abs(a: int) -> int {
    if a < 0 { -a } else { a }
}

/// `a / b` on `i64`, rounding toward zero.
pub fn div_i64(a: i64, b: i64) -> (q: i64)
    requires
        b != 0,
        !(a == i64::MIN && b == -1),
    ensures
        q == trunc_div(a as int, b as int),
{
    if b > 0 {
        let q = a / b;
        if a >= 0 {
            assert(q == a as int / b as int);
        } else {
            assert(q == -((-a) as int / b as int));
        }
        q
    } else if b == i64::MIN {
        if a == i64::MIN {
            assert(abs(a as int) / abs(b as int) == 1) by (nonlinear_arith)
                requires abs(a as int) == abs(b as int), abs(b as int) > 0;
            1
        } else {
            assert(abs(a as int) / abs(b as int) == 0) by (nonlinear_arith)
                requires 0 <= abs(a as int) < abs(b as int);
            0
        }
    } else {
        let nb: i64 = -b;
        let q = a / nb;
        let ghost m: int = abs(a as int) / (nb as int);
        if a >= 0 {
            assert(q == a as int / nb as int);
        } else {
            assert(q == -((-a) as int / nb as int));
        }
        assert(m <= abs(a as int)) by (nonlinear_arith)
            requires nb >= 1, m == abs(a as int) / (nb as int), abs(a as int) >= 0;
        assert(nb >= 2 ==> m <= abs(a as int) / 2) by (nonlinear_arith)
            requires m == abs(a as int) / (nb as int), abs(a as int) >= 0;
        assert(nb == 1 ==> m == abs(a as int)) by (nonlinear_arith)
            requires m == abs(a as int) / (nb as int);
        -q
    }
}

/// Filtering a prefix of `s` gives a prefix of filtering `s`.
pub proof fn lemma_filter_prefix<A>(s: Seq<A>, p: spec_fn(A) -> bool, m: int)
    requires
        0 <= m <= s.len(),
    ensures
        s.take(m).filter(p).len() <= s.filter(p).len(),
        forall|k: int|
            0 <= k < s.take(m).filter(p).len() ==> #[trigger] s.take(m).filter(p)[k] == s.filter(p)[k],
    decreases s.len(),
{
    if m == s.len() {
        assert(s.take(m) =~= s);
    } else {
        let d = s.drop_last();
        assert(s.take(m) =~= d.take(m));
        lemma_filter_prefix(d, p, m);
        reveal_with_fuel(Seq::<_>::filter, 1);
        assert(s.filter(p) == if p(s.last()) { d.filter(p).push(s.last()) } else { d.filter(p) });
    }
}

/// An element of `s` that passes `p` stands in the filtered sequence at
/// the position given by the number of passing elements before it.
pub proof fn lemma_filter_position<A>(s: Seq<A>, p: spec_fn(A) -> bool, i: int)
    requires
        0 <= i < s.len(),
        p(s[i]),
    ensures
        s.take(i + 1).filter(p).len() == s.take(i).filter(p).len() + 1,
        s.take(i).filter(p).len() < s.filter(p).len(),
        s.filter(p)[s.take(i).filter(p).len() as int] == s[i],
{
    let t = s.take(i + 1);
    assert(t.drop_last() =~= s.take(i));
    assert(t.last() == s[i]);
    reveal_with_fuel(Seq::<_>::filter, 1);
    assert(t.filter(p) == s.take(i).filter(p).push(s[i]));
    lemma_filter_prefix(s, p, i + 1);
    let k = s.take(i).filter(p).len() as int;
    assert(t.filter(p)[k] == s[i]);
    assert(s.take(i + 1).filter(p)[k] == s.filter(p)[k]);
}

/// The number of passing elements before a position never decreases along
/// the sequence.
pub proof fn lemma_filter_count_monotone<A>(s: Seq<A>, p: spec_fn(A) -> bool, i: int, j: int)
    requires
        0 <= i <= j <= s.len(),
    ensures
        s.take(i).filter(p).len() <= s.take(j).filter(p).len(),
{
    assert(s.take(j).take(i) =~= s.take(i));
    lemma_filter_prefix(s.take(j), p, i);
}

/// Every element of the filtered sequence comes from a position of `s`
/// whose element passes `p`, with exactly that many passing elements
/// before it.
pub proof fn lemma_filter_origin<A>(s: Seq<A>, p: spec_fn(A) -> bool, k: int) -> (i: int)
    requires
        0 <= k < s.filter(p).len(),
    ensures
        0 <= i < s.len(),
        p(s[i]),
        s.filter(p)[k] == s[i],
        s.take(i).filter(p).len() == k,
    decreases s.len(),
{
    let d = s.drop_last();
    reveal_with_fuel(Seq::<_>::filter, 1);
    if k < d.filter(p).len() {
        let i = lemma_filter_origin(d, p, k);
        assert(d.take(i) =~= s.take(i));
        assert(s.filter(p)[k] == d.filter(p)[k]);
        i
    } else {
        let i = s.len() - 1;
        assert(s.take(i) =~= d);
        i
    }
}

} // verus!
