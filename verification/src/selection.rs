//! Selections of node indices: lists of members, and the flags that mark them.

use vstd::prelude::*;

verus! {

/// The values at the given members.
pub open spec fn picked<T>(values: Seq<T>, members: Seq<usize>) -> Seq<T> {
    members.map_values(|k: usize| values[k as int])
}

/// Every member is an index below `n`.
pub open spec fn in_range(members: Seq<usize>, n: nat) -> bool {
    forall|i: int| 0 <= i < members.len() ==> #[trigger] members[i] < n
}

/// The members stand in increasing order, so none occurs twice.
pub open spec fn ascending(members: Seq<usize>) -> bool {
    forall|i: int, j: int| 0 <= i < j < members.len() ==> members[i] < members[j]
}

/// The indices `0, 1, .., n - 1`.
pub open spec fn everyone(n: nat) -> Seq<usize> {
    Seq::new(n, |i: int| i as usize)
}

/// The first `n` indices whose flag is `wanted`, in increasing order.
pub open spec fn marked_below(flags: Seq<bool>, wanted: bool, n: nat) -> Seq<usize>
    decreases n,
{
    if n == 0 {
        Seq::empty()
    } else {
        let before = marked_below(flags, wanted, (n - 1) as nat);
        if flags[n - 1] == wanted {
            before.push((n - 1) as usize)
        } else {
            before
        }
    }
}

/// The indices whose flag is `wanted`, in increasing order.
pub open spec fn marked(flags: Seq<bool>, wanted: bool) -> Seq<usize> {
    marked_below(flags, wanted, flags.len())
}

/// `marked` lists exactly the indices whose flag is `wanted`, in increasing order.
pub proof fn marked_lists_the_flags(flags: Seq<bool>, wanted: bool)
    requires
        flags.len() <= usize::MAX,
    ensures
        in_range(marked(flags, wanted), flags.len()),
        ascending(marked(flags, wanted)),
        forall|k: usize| #[trigger]
            marked(flags, wanted).contains(k) <==> k < flags.len() && flags[k as int] == wanted,
        marked(flags, wanted).len() + marked(flags, !wanted).len() == flags.len(),
{
    marked_below_lists(flags, wanted, flags.len());
    marked_below_lists(flags, !wanted, flags.len());
}

proof fn marked_below_lists(flags: Seq<bool>, wanted: bool, n: nat)
    requires
        n <= flags.len() <= usize::MAX,
    ensures
        in_range(marked_below(flags, wanted, n), n),
        ascending(marked_below(flags, wanted, n)),
        forall|k: usize| #[trigger]
            marked_below(flags, wanted, n).contains(k) <==> k < n && flags[k as int] == wanted,
        marked_below(flags, wanted, n).len() + marked_below(flags, !wanted, n).len() == n,
    decreases n,
{
    if n > 0 {
        let m = (n - 1) as nat;
        marked_below_lists(flags, wanted, m);
        let before = marked_below(flags, wanted, m);
        let now = marked_below(flags, wanted, n);
        assert forall|k: usize| #[trigger] now.contains(k) <==> k < n && flags[k as int]
            == wanted by {
            if flags[m as int] == wanted {
                assert(now[now.len() - 1] == m as usize);
                if before.contains(k) {
                    let i = choose|i: int| 0 <= i < before.len() && before[i] == k;
                    assert(now[i] == k);
                }
                if now.contains(k) && k != m as usize {
                    let i = choose|i: int| 0 <= i < now.len() && now[i] == k;
                    assert(before[i] == k);
                }
            }
            assert(before.contains(k) <==> k < m && flags[k as int] == wanted);
        }
    }
}

/// Setting one more flag lists one index more, and one less on the other side.
pub proof fn marking_one(flags: Seq<bool>, d: int, wanted: bool)
    requires
        0 <= d < flags.len(),
        flags[d] != wanted,
    ensures
        marked(flags.update(d, wanted), wanted).len() == marked(flags, wanted).len() + 1,
        marked(flags.update(d, wanted), !wanted).len() + 1 == marked(flags, !wanted).len(),
{
    marking_one_below(flags, d, wanted, flags.len());
}

proof fn marking_one_below(flags: Seq<bool>, d: int, wanted: bool, n: nat)
    requires
        0 <= d < flags.len(),
        flags[d] != wanted,
        n <= flags.len(),
    ensures
        marked_below(flags.update(d, wanted), wanted, n).len() == marked_below(
            flags,
            wanted,
            n,
        ).len() + (if d < n {
            1int
        } else {
            0
        }),
        marked_below(flags.update(d, wanted), !wanted, n).len() == marked_below(
            flags,
            !wanted,
            n,
        ).len() - (if d < n {
            1int
        } else {
            0
        }),
    decreases n,
{
    if n > 0 {
        marking_one_below(flags, d, wanted, (n - 1) as nat);
    }
}

/// Taking one member out leaves an increasing list of the rest.
pub proof fn removal_keeps_order(members: Seq<usize>, slot: int, n: nat)
    requires
        in_range(members, n),
        ascending(members),
        0 <= slot < members.len(),
    ensures
        in_range(members.remove(slot), n),
        ascending(members.remove(slot)),
        members.remove(slot).len() == members.len() - 1,
        forall|k: usize| #[trigger]
            members.remove(slot).contains(k) <==> members.contains(k) && k != members[slot],
{
    let rest = members.remove(slot);
    assert forall|k: usize| #[trigger] rest.contains(k) <==> members.contains(k) && k
        != members[slot] by {
        if rest.contains(k) {
            let i = choose|i: int| 0 <= i < rest.len() && rest[i] == k;
            let j = if i < slot {
                i
            } else {
                i + 1
            };
            assert(members[j] == k);
        }
        if members.contains(k) && k != members[slot] {
            let j = choose|j: int| 0 <= j < members.len() && members[j] == k;
            let i = if j < slot {
                j
            } else {
                j - 1
            };
            assert(rest[i] == k);
        }
    }
}

/// The values at the given members.
pub(crate) fn pick<T: Copy>(values: &[T], members: &[usize]) -> (r: Vec<T>)
    requires
        in_range(members@, values@.len()),
    ensures
        r@ == picked(values@, members@),
{
    let mut r: Vec<T> = Vec::new();
    for i in 0..members.len()
        invariant
            in_range(members@, values@.len()),
            r@ == picked(values@, members@).take(i as int),
    {
        assert(members@[i as int] < values@.len());
        r.push(values[members[i]]);
        assert(r@ == picked(values@, members@).take(i + 1));
    }
    assert(picked(values@, members@).take(members@.len() as int) == picked(values@, members@));
    r
}

/// The indices `0, 1, .., n - 1`.
pub(crate) fn all_indices(n: usize) -> (r: Vec<usize>)
    ensures
        r@ == everyone(n as nat),
{
    let mut r: Vec<usize> = Vec::new();
    for i in 0..n
        invariant
            r@ == everyone(i as nat),
    {
        r.push(i);
        assert(r@ == everyone((i + 1) as nat));
    }
    r
}

/// The indices whose flag is `wanted`, in increasing order.
pub(crate) fn list_marked(flags: &[bool], wanted: bool) -> (r: Vec<usize>)
    ensures
        r@ == marked(flags@, wanted),
{
    let mut r: Vec<usize> = Vec::new();
    for i in 0..flags.len()
        invariant
            r@ == marked_below(flags@, wanted, i as nat),
    {
        if flags[i] == wanted {
            r.push(i);
        }
    }
    r
}

/// The members but for the one in the given slot.
pub(crate) fn leave_out(members: &[usize], slot: usize) -> (r: Vec<usize>)
    requires
        slot < members@.len(),
    ensures
        r@ == members@.remove(slot as int),
{
    let mut r: Vec<usize> = Vec::new();
    for i in 0..members.len()
        invariant
            slot < members@.len(),
            r@ == (if slot < i {
                members@.take(i as int).remove(slot as int)
            } else {
                members@.take(i as int)
            }),
    {
        if i != slot {
            r.push(members[i]);
        }
        assert(r@ =~= (if slot < i + 1 {
            members@.take(i + 1).remove(slot as int)
        } else {
            members@.take(i + 1)
        }));
    }
    assert(members@.take(members@.len() as int) == members@);
    r
}

} // verus!
