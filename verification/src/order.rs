//! Stable orders: which index comes first when a sequence is sorted by its keys.

use crate::scalar::{Arith, Scalar};
use vstd::prelude::*;

verus! {

/// How many of the first `n` indices in `order` stay in front of `key`: those behind the
/// last one whose own key is not above it.
pub open spec fn slot_for<A: Arith>(keys: Seq<A>, order: Seq<usize>, key: A, n: nat) -> nat
    decreases n,
{
    if n > 0 && key.below(keys[order[n - 1] as int]) {
        slot_for(keys, order, key, (n - 1) as nat)
    } else {
        n
    }
}

/// The first `n` indices in the order of their keys; indices with equal keys stay in
/// their own order.
pub open spec fn order_below<A: Arith>(keys: Seq<A>, n: nat) -> Seq<usize>
    decreases n,
{
    if n == 0 {
        Seq::empty()
    } else {
        let before = order_below(keys, (n - 1) as nat);
        before.insert(
            slot_for(keys, before, keys[n - 1], before.len()) as int,
            (n - 1) as usize,
        )
    }
}

/// The indices of `keys` in the order of their keys; indices with equal keys stay in
/// their own order.
pub open spec fn stable_order<A: Arith>(keys: Seq<A>) -> Seq<usize> {
    order_below(keys, keys.len())
}

/// `values` in the given order. Values beyond the order stay behind it, and values that
/// are too few for it stay as they are.
pub open spec fn arranged<T>(values: Seq<T>, order: Seq<usize>) -> Seq<T> {
    if order.len() <= values.len() {
        crate::selection::picked(values, order) + values.skip(order.len() as int)
    } else {
        values
    }
}

/// Whether every index below `n` occurs exactly once.
pub open spec fn is_permutation(order: Seq<usize>, n: nat) -> bool {
    &&& order.len() == n
    &&& crate::selection::in_range(order, n)
    &&& order.no_duplicates()
    &&& forall|k: usize| k < n ==> #[trigger] order.contains(k)
}

/// Whether the keys do not decrease along `order`, and indices whose keys tie stay in
/// their own order.
pub open spec fn is_sorted<A: Arith>(keys: Seq<A>, order: Seq<usize>) -> bool {
    forall|i: int, j: int|
        0 <= i < j < order.len() ==> {
            let (earlier, later) = (#[trigger] order[i], #[trigger] order[j]);
            &&& !keys[later as int].below(keys[earlier as int])
            &&& keys[earlier as int].below(keys[later as int]) || earlier < later
        }
}

/// Whether `<` ranks the given keys: of two keys at most one is below the other, and a key
/// that is not below a second, which is not below a third, is not below the third. Keys
/// that cannot be compared break this; all others are ranked by any ordinary `<`.
pub open spec fn ranked<A: Arith>(keys: Seq<A>) -> bool {
    &&& forall|i: int, j: int|
        0 <= i < keys.len() && 0 <= j < keys.len() && #[trigger] keys[i].below(keys[j])
            ==> !keys[j].below(keys[i])
    &&& forall|i: int, j: int, k: int|
        0 <= i < keys.len() && 0 <= j < keys.len() && 0 <= k < keys.len()
            && !#[trigger] keys[j].below(keys[i]) && !#[trigger] keys[k].below(keys[j])
            ==> !keys[k].below(keys[i])
}

/// An index goes behind the last whose key is not above its own.
pub(crate) proof fn slot_is_where_it_belongs<A: Arith>(
    keys: Seq<A>,
    order: Seq<usize>,
    key: A,
    n: nat,
)
    requires
        n <= order.len(),
    ensures
        ({
            let slot = slot_for(keys, order, key, n);
            &&& slot <= n
            &&& slot > 0 ==> !key.below(keys[order[slot - 1] as int])
            &&& forall|j: int| slot <= j < n ==> key.below(keys[#[trigger] order[j] as int])
        }),
    decreases n,
{
    if n > 0 && key.below(keys[order[n - 1] as int]) {
        slot_is_where_it_belongs(keys, order, key, (n - 1) as nat);
    }
}

/// The order of the first `n` indices lists each of them once.
pub(crate) proof fn order_below_is_a_permutation<A: Arith>(keys: Seq<A>, n: nat)
    requires
        n <= usize::MAX,
    ensures
        is_permutation(order_below(keys, n), n),
    decreases n,
{
    if n > 0 {
        let m = (n - 1) as nat;
        order_below_is_a_permutation(keys, m);
        let before = order_below(keys, m);
        let slot = slot_for(keys, before, keys[m as int], before.len()) as int;
        slot_is_where_it_belongs(keys, before, keys[m as int], before.len());
        let now = order_below(keys, n);
        assert(now == before.insert(slot, m as usize));
        assert forall|k: usize| k < n implies #[trigger] now.contains(k) by {
            if k == m {
                assert(now[slot] == k);
            } else {
                assert(before.contains(k));
                let i = choose|i: int| 0 <= i < before.len() && before[i] == k;
                assert(now[if i < slot {
                    i
                } else {
                    i + 1
                }] == k);
            }
        }
        assert forall|i: int| 0 <= i < now.len() implies #[trigger] now[i] < n by {
            if i != slot {
                let _ = before[if i < slot {
                    i
                } else {
                    i - 1
                }];
            }
        }
        assert forall|i: int, j: int|
            0 <= i < now.len() && 0 <= j < now.len() && i != j implies now[i] != now[j] by {
            let p = if i < slot {
                i
            } else {
                i - 1
            };
            let q = if j < slot {
                j
            } else {
                j - 1
            };
            if i != slot {
                assert(before[p] < m);
            }
            if j != slot {
                assert(before[q] < m);
            }
        }
    }
}

/// The stable order lists every index exactly once.
pub proof fn stable_order_is_a_permutation<A: Arith>(keys: Seq<A>)
    requires
        keys.len() <= usize::MAX,
    ensures
        is_permutation(stable_order(keys), keys.len()),
{
    order_below_is_a_permutation(keys, keys.len());
}

proof fn order_below_is_sorted<A: Arith>(keys: Seq<A>, n: nat)
    requires
        ranked(keys),
        n <= keys.len() <= usize::MAX,
    ensures
        is_sorted(keys, order_below(keys, n)),
    decreases n,
{
    if n > 0 {
        let m = (n - 1) as nat;
        order_below_is_sorted(keys, m);
        order_below_is_a_permutation(keys, m);
        let before = order_below(keys, m);
        let key = keys[m as int];
        let slot = slot_for(keys, before, key, before.len()) as int;
        slot_is_where_it_belongs(keys, before, key, before.len());
        let now = order_below(keys, n);
        assert forall|i: int, j: int| 0 <= i < j < now.len() implies {
            let (earlier, later) = (#[trigger] now[i], #[trigger] now[j]);
            &&& !keys[later as int].below(keys[earlier as int])
            &&& keys[earlier as int].below(keys[later as int]) || earlier < later
        } by {
            let p = if i < slot {
                i
            } else {
                i - 1
            };
            let q = if j < slot {
                j
            } else {
                j - 1
            };
            if j == slot {
                let last = before[slot - 1];
                assert(last < m);
                assert(before[i] < m);
                if i < slot - 1 {
                    assert(!keys[last as int].below(keys[before[i] as int]));
                }
            } else if i == slot {
                assert(before[q] < m);
                assert(key.below(keys[before[q] as int]));
            } else {
                assert(now[i] == before[p] && now[j] == before[q]);
            }
        }
    }
}

/// The keys do not decrease along the stable order, and ties keep their own order.
pub proof fn stable_order_is_sorted<A: Arith>(keys: Seq<A>)
    requires
        ranked(keys),
        keys.len() <= usize::MAX,
    ensures
        is_sorted(keys, stable_order(keys)),
{
    order_below_is_sorted(keys, keys.len());
}

proof fn sorted_keys_keep_their_place<A: Arith>(keys: Seq<A>, n: nat)
    requires
        n <= keys.len() <= usize::MAX,
        forall|i: int, j: int|
            0 <= i < j < keys.len() ==> !(#[trigger] keys[j]).below(#[trigger] keys[i]),
    ensures
        order_below(keys, n) == crate::selection::everyone(n),
    decreases n,
{
    if n > 0 {
        let m = (n - 1) as nat;
        sorted_keys_keep_their_place(keys, m);
        let before = order_below(keys, m);
        if m > 0 {
            assert(before[m - 1] == (m - 1) as usize);
            assert(!keys[m as int].below(keys[m - 1]));
        }
        assert(slot_for(keys, before, keys[m as int], m) == m);
        assert(order_below(keys, n) =~= crate::selection::everyone(n));
    }
}

/// Keys that already stand in order keep their place.
pub proof fn stable_order_keeps_sorted_keys<A: Arith>(keys: Seq<A>)
    requires
        keys.len() <= usize::MAX,
        forall|i: int, j: int|
            0 <= i < j < keys.len() ==> !(#[trigger] keys[j]).below(#[trigger] keys[i]),
    ensures
        stable_order(keys) == crate::selection::everyone(keys.len()),
{
    sorted_keys_keep_their_place(keys, keys.len());
}

/// The indices of `keys` in the order of their keys; indices with equal keys stay in
/// their own order.
pub fn sort_indices<S: Scalar>(keys: &[S]) -> (r: Vec<usize>)
    ensures
        r@ == stable_order(keys@),
        is_permutation(r@, keys@.len()),
{
    let mut order: Vec<usize> = Vec::new();
    for k in 0..keys.len()
        invariant
            order@ == order_below(keys@, k as nat),
            k <= keys@.len(),
    {
        proof {
            assert(keys.len() == keys@.len());
            order_below_is_a_permutation(keys@, k as nat);
        }
        let mut slot = order.len();
        let mut walking = true;
        while walking
            invariant
                k < keys@.len(),
                crate::selection::in_range(order@, k as nat),
                slot <= order@.len(),
                slot_for(keys@, order@, keys@[k as int], slot as nat) == slot_for(
                    keys@,
                    order@,
                    keys@[k as int],
                    order@.len(),
                ),
                !walking ==> slot == slot_for(keys@, order@, keys@[k as int], slot as nat),
            decreases
                slot + (if walking {
                    1int
                } else {
                    0
                }),
        {
            if slot > 0 {
                assert(order@[slot - 1] < k);
                if keys[k].lt(keys[order[slot - 1]]) {
                    slot = slot - 1;
                } else {
                    walking = false;
                }
            } else {
                walking = false;
            }
        }
        order.insert(slot, k);
    }
    proof {
        assert(keys.len() == keys@.len());
        stable_order_is_a_permutation(keys@);
    }
    order
}

/// `values` in the given order.
pub(crate) fn arrange<T: Copy>(values: &[T], order: &[usize]) -> (r: Vec<T>)
    requires
        is_permutation(order@, order@.len()),
    ensures
        r@ == arranged(values@, order@),
{
    if order.len() > values.len() {
        return vstd::slice::slice_to_vec(values);
    }
    let mut r = crate::selection::pick(values, order);
    for k in order.len()..values.len()
        invariant
            order@.len() <= k <= values@.len(),
            r@ == crate::selection::picked(values@, order@) + values@.subrange(
                order@.len() as int,
                k as int,
            ),
    {
        r.push(values[k]);
        assert(values@.subrange(order@.len() as int, k + 1) == values@.subrange(
            order@.len() as int,
            k as int,
        ).push(values@[k as int]));
    }
    assert(r@ =~= arranged(values@, order@));
    r
}

} // verus!
