//! Sums over sequences and over finite maps, with the few facts about them
//! that the score keeping rests on.
use vstd::prelude::*;

verus! {

/// The sum of the numbers of a sequence.
pub open spec fn sum(s: Seq<nat>) -> nat
    decreases s.len(),
{
    if s.len() == 0 {
        0
    } else {
        sum(s.drop_last()) + s.last()
    }
}

/// The sequence without the element at `i`, the last element moved into its
/// place: what `Vec::swap_remove` leaves.
pub open spec fn swap_removed<T>(s: Seq<T>, i: int) -> Seq<T> {
    s.update(i, s.last()).drop_last()
}

/// The sum of the values of a finite map.
pub open spec fn map_sum(m: Map<u64, u64>) -> nat
    decreases m.dom().len(),
    when m.dom().finite()
{
    if m.dom().len() == 0 {
        0
    } else {
        let k = m.dom().choose();
        m[k] as nat + map_sum(m.remove(k))
    }
}

/// A sum grows by what is appended.
pub proof fn lemma_sum_push(s: Seq<nat>, x: nat)
    ensures
        sum(s.push(x)) == sum(s) + x,
{
    assert(s.push(x).drop_last() == s);
}

/// Replacing one element changes the sum by the difference.
pub proof fn lemma_sum_update(s: Seq<nat>, i: int, x: nat)
    requires
        0 <= i < s.len(),
    ensures
        sum(s.update(i, x)) + s[i] == sum(s) + x,
    decreases s.len(),
{
    if i == s.len() - 1 {
        assert(s.update(i, x).drop_last() == s.drop_last());
    } else {
        lemma_sum_update(s.drop_last(), i, x);
        assert(s.update(i, x).drop_last() == s.drop_last().update(i, x));
    }
}

/// Removing one element takes its value from the sum.
pub proof fn lemma_sum_swap_removed(s: Seq<nat>, i: int)
    requires
        0 <= i < s.len(),
    ensures
        sum(swap_removed(s, i)) + s[i] == sum(s),
{
    lemma_sum_update(s, i, s.last());
}

/// A sum over the first `n + 1` elements is the sum over the first `n` plus
/// the next element, and no sum over a prefix is larger than the whole sum.
pub proof fn lemma_sum_take(s: Seq<nat>, n: int)
    requires
        0 <= n <= s.len(),
    ensures
        sum(s.take(n)) <= sum(s),
        n < s.len() ==> sum(s.take(n + 1)) == sum(s.take(n)) + s[n],
        n == s.len() ==> sum(s.take(n)) == sum(s),
    decreases s.len() - n,
{
    if n < s.len() {
        assert(s.take(n + 1).drop_last() == s.take(n));
        lemma_sum_take(s, n + 1);
    } else {
        assert(s.take(n) == s);
    }
}

/// No element is larger than the sum.
pub proof fn lemma_sum_bounds(s: Seq<nat>, i: int)
    requires
        0 <= i < s.len(),
    ensures
        s[i] <= sum(s),
    decreases s.len(),
{
    if i < s.len() - 1 {
        lemma_sum_bounds(s.drop_last(), i);
    }
}

/// The sum of a map is the value at any one key plus the sum of the rest.
pub proof fn lemma_map_sum_remove(m: Map<u64, u64>, k: u64)
    requires
        m.dom().finite(),
        m.contains_key(k),
    ensures
        map_sum(m) == m[k] + map_sum(m.remove(k)),
    decreases m.dom().len(),
{
    let c = m.dom().choose();
    if c != k {
        lemma_map_sum_remove(m.remove(c), k);
        lemma_map_sum_remove(m.remove(k), c);
        assert(m.remove(c).remove(k) == m.remove(k).remove(c));
    }
}

/// The empty map sums to zero.
pub proof fn lemma_map_sum_empty()
    ensures
        map_sum(Map::<u64, u64>::empty()) == 0,
{
}

/// Setting the value at a key changes the sum by the difference to what
/// stood there, or by the value where nothing did.
pub proof fn lemma_map_sum_insert(m: Map<u64, u64>, k: u64, v: u64)
    requires
        m.dom().finite(),
    ensures
        map_sum(m.insert(k, v)) + (if m.contains_key(k) {
            m[k] as nat
        } else {
            0
        }) == map_sum(m) + v,
{
    lemma_map_sum_remove(m.insert(k, v), k);
    assert(m.insert(k, v).remove(k) == m.remove(k));
    if m.contains_key(k) {
        lemma_map_sum_remove(m, k);
    } else {
        assert(m.remove(k) == m);
    }
}

/// No value of a map is larger than its sum.
pub proof fn lemma_map_sum_bounds(m: Map<u64, u64>, k: u64)
    requires
        m.dom().finite(),
        m.contains_key(k),
    ensures
        m[k] <= map_sum(m),
{
    lemma_map_sum_remove(m, k);
}

} // verus!
