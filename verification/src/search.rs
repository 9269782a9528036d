//! Facts about sequences that the other modules share: where the first
//! item of a kind stands, and how a filter grows with its sequence.

use vstd::prelude::*;

verus! {

/// Where the first item that `hit` holds of stands in `items`; the length
/// of `items` if there is none.
pub open spec fn first_index<T>(items: Seq<T>, hit: spec_fn(T) -> bool) -> int
    decreases items.len(),
{
    if items.len() == 0 {
        0
    } else {
        let before = first_index(items.drop_last(), hit);
        if before < items.len() - 1 {
            before
        } else if hit(items.last()) {
            items.len() - 1
        } else {
            items.len() as int
        }
    }
}

/// `first_index` names a hit, and nothing before it is one.
pub proof fn lemma_first_index<T>(items: Seq<T>, hit: spec_fn(T) -> bool)
    ensures
        0 <= first_index(items, hit) <= items.len(),
        first_index(items, hit) < items.len() ==> hit(items[first_index(items, hit)]),
        forall|j: int| 0 <= j < first_index(items, hit) ==> !hit(#[trigger] items[j]),
    decreases items.len(),
{
    if items.len() > 0 {
        let shorter = items.drop_last();
        lemma_first_index(shorter, hit);
        assert forall|j: int| 0 <= j < first_index(items, hit) implies !hit(#[trigger] items[j]) by {
            if j < shorter.len() {
                assert(items[j] == shorter[j]);
            }
        }
    }
}

/// An item that `hit` holds of, with none before it, is where `first_index`
/// points.
pub proof fn lemma_first_index_is<T>(items: Seq<T>, hit: spec_fn(T) -> bool, i: int)
    requires
        0 <= i <= items.len(),
        i < items.len() ==> hit(items[i]),
        forall|j: int| 0 <= j < i ==> !hit(#[trigger] items[j]),
    ensures
        first_index(items, hit) == i,
{
    lemma_first_index(items, hit);
    let f = first_index(items, hit);
    if f < i {
        assert(!hit(items[f]));
    }
}

/// One more item: kept if the test holds of it, dropped if not.
pub proof fn lemma_filter_step<A>(all: Seq<A>, pred: spec_fn(A) -> bool, k: int)
    requires
        0 <= k < all.len(),
    ensures
        all.take(k + 1).filter(pred) == if pred(all[k]) {
            all.take(k).filter(pred).push(all[k])
        } else {
            all.take(k).filter(pred)
        },
{
    assert(all.take(k + 1) =~= all.take(k).push(all[k]));
    all.take(k).lemma_filter_push(all[k], pred);
}

/// The sum of `f` over 0, 1, .. up to but not with `n`.
pub open spec fn sum(f: spec_fn(int) -> int, n: int) -> int
    decreases n,
{
    if n <= 0 {
        0
    } else {
        sum(f, n - 1) + f(n - 1)
    }
}

/// A sum of zeros is zero.
pub proof fn lemma_sum_zero(f: spec_fn(int) -> int, n: int)
    requires
        forall|i: int| 0 <= i < n ==> #[trigger] f(i) == 0,
    ensures
        sum(f, n) == 0,
    decreases n,
{
    if n > 0 {
        lemma_sum_zero(f, n - 1);
    }
}

/// The smaller terms have the smaller sum.
pub proof fn lemma_sum_le(f: spec_fn(int) -> int, g: spec_fn(int) -> int, n: int)
    requires
        forall|i: int| 0 <= i < n ==> #[trigger] f(i) <= g(i),
    ensures
        sum(f, n) <= sum(g, n),
    decreases n,
{
    if n > 0 {
        lemma_sum_le(f, g, n - 1);
    }
}

/// The sum of sums is the sum of the sums.
pub proof fn lemma_sum_add(f: spec_fn(int) -> int, g: spec_fn(int) -> int, h: spec_fn(int) -> int, n: int)
    requires
        forall|i: int| 0 <= i < n ==> #[trigger] h(i) == f(i) + g(i),
    ensures
        sum(h, n) == sum(f, n) + sum(g, n),
    decreases n,
{
    if n > 0 {
        lemma_sum_add(f, g, h, n - 1);
    }
}

/// Terms of at most 1 add at most their number.
pub proof fn lemma_sum_tail(f: spec_fn(int) -> int, from: int, n: int)
    requires
        0 <= from <= n,
        forall|i: int| from <= i < n ==> #[trigger] f(i) <= 1,
    ensures
        sum(f, n) <= sum(f, from) + (n - from),
    decreases n - from,
{
    if n > from {
        lemma_sum_tail(f, from, n - 1);
    }
}

/// Where `f` at a place and `u` at the place `d` further on are never both
/// 1, the first `m` terms of `f` and the first `m + d` terms of `u` add up
/// to at most `m`.
pub proof fn lemma_sum_pairs_upto(f: spec_fn(int) -> int, u: spec_fn(int) -> int, d: int, m: int)
    requires
        0 <= d,
        0 <= m,
        forall|i: int| 0 <= i < d ==> #[trigger] u(i) == 0,
        forall|j: int| 0 <= j < m ==> #[trigger] f(j) + u(j + d) <= 1,
    ensures
        sum(f, m) + sum(u, m + d) <= m,
    decreases m,
{
    if m == 0 {
        lemma_sum_zero(u, d);
    } else {
        lemma_sum_pairs_upto(f, u, d, m - 1);
        assert(f(m - 1) + u(m - 1 + d) <= 1);
    }
}

/// Where `f` at a place and `u` at the place `d` further on are never both
/// 1, and `u` is 0 at the first `d` places, `f` and `u` add up to at most
/// `n` over the first `n` places.
pub proof fn lemma_sum_pairs(f: spec_fn(int) -> int, u: spec_fn(int) -> int, d: int, n: int)
    requires
        0 <= d <= n,
        forall|i: int| 0 <= i < d ==> #[trigger] u(i) == 0,
        forall|j: int| 0 <= j < n - d ==> #[trigger] f(j) + u(j + d) <= 1,
        forall|j: int| 0 <= j < n ==> #[trigger] f(j) <= 1,
    ensures
        sum(f, n) + sum(u, n) <= n,
{
    lemma_sum_pairs_upto(f, u, d, n - d);
    lemma_sum_tail(f, n - d, n);
}

} // verus!
