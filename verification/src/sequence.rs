//! Sums and extremes of number sequences, in the order in which they are met.

use crate::scalar::{Arith, Scalar};
use vstd::prelude::*;

verus! {

/// The sum of `terms`, added up from the front.
pub open spec fn total<A: Arith>(terms: Seq<A>) -> A
    decreases terms.len(),
{
    if terms.len() == 0 {
        A::of_count(0)
    } else {
        total(terms.drop_last()).plus(terms.last())
    }
}

/// The first position that holds the least term. `None` when no term compares
/// below the unbounded value (a term that cannot be compared never wins).
pub open spec fn lowest<A: Arith>(terms: Seq<A>) -> Option<nat>
    decreases terms.len(),
{
    if terms.len() == 0 {
        None
    } else {
        let before = lowest(terms.drop_last());
        let bar = match before {
            Some(k) => terms[k as int],
            None => A::unbounded(),
        };
        if terms.last().below(bar) {
            Some((terms.len() - 1) as nat)
        } else {
            before
        }
    }
}

/// The first position that holds the greatest term. `None` when no term
/// compares above the negated unbounded value.
pub open spec fn highest<A: Arith>(terms: Seq<A>) -> Option<nat>
    decreases terms.len(),
{
    if terms.len() == 0 {
        None
    } else {
        let before = highest(terms.drop_last());
        let bar = match before {
            Some(k) => terms[k as int],
            None => A::unbounded().negated(),
        };
        if bar.below(terms.last()) {
            Some((terms.len() - 1) as nat)
        } else {
            before
        }
    }
}

/// A position, as the number that it is.
pub open spec fn position(slot: Option<usize>) -> Option<nat> {
    match slot {
        Some(k) => Some(k as nat),
        None => None,
    }
}

/// Whether `<=` is transitive for the number type.
pub open spec fn at_most_is_transitive<A: Arith>() -> bool {
    forall|a: A, b: A, c: A| #[trigger] a.at_most(b) && #[trigger] b.at_most(c) ==> a.at_most(c)
}

/// Whether `<` orders the number type: nothing is below itself, and being below is
/// transitive. Values that cannot be compared at all are allowed.
pub open spec fn below_is_an_order<A: Arith>() -> bool {
    &&& forall|a: A| !#[trigger] a.below(a)
    &&& forall|a: A, b: A, c: A| #[trigger] a.below(b) && #[trigger] b.below(c) ==> a.below(c)
}

/// Whether `<=` and `<` agree: what is within a limit lies below everything comparable that
/// is not, and what is within a comparable limit is comparable itself. Values that cannot
/// be compared at all are allowed.
pub open spec fn limits_separate<A: Arith>() -> bool {
    &&& forall|a: A, b: A, limit: A|
        #[trigger] a.at_most(limit) && !#[trigger] b.at_most(limit) && b.below(A::unbounded())
            ==> a.below(b)
    &&& forall|a: A, limit: A|
        #[trigger] a.at_most(limit) && limit.below(A::unbounded()) ==> a.below(A::unbounded())
}

/// Whether each of the terms is within the sum that it completes, and no sum falls behind
/// the one before: so it is with terms that can be compared and are not negative.
pub open spec fn builds_up<A: Arith>(terms: Seq<A>) -> bool
    decreases terms.len(),
{
    terms.len() > 0 ==> {
        &&& builds_up(terms.drop_last())
        &&& terms.last().at_most(total(terms))
        &&& total(terms.drop_last()).at_most(total(terms))
    }
}

/// A sum that builds up is no less than any of its terms.
pub proof fn total_dominates_its_terms<A: Arith>(terms: Seq<A>)
    requires
        builds_up(terms),
        at_most_is_transitive::<A>(),
    ensures
        forall|i: int| 0 <= i < terms.len() ==> (#[trigger] terms[i]).at_most(total(terms)),
    decreases terms.len(),
{
    if terms.len() > 0 {
        let front = terms.drop_last();
        total_dominates_its_terms(front);
        assert forall|i: int| 0 <= i < terms.len() implies (#[trigger] terms[i]).at_most(
            total(terms),
        ) by {
            if i < front.len() {
                assert(front[i] == terms[i]);
            }
        }
    }
}

/// A position that `lowest` names lies in the sequence.
pub proof fn lowest_in_range<A: Arith>(terms: Seq<A>)
    ensures
        lowest(terms) matches Some(k) ==> k < terms.len(),
    decreases terms.len(),
{
    if terms.len() > 0 {
        lowest_in_range(terms.drop_last());
    }
}

/// A position that `highest` names lies in the sequence.
pub proof fn highest_in_range<A: Arith>(terms: Seq<A>)
    ensures
        highest(terms) matches Some(k) ==> k < terms.len(),
    decreases terms.len(),
{
    if terms.len() > 0 {
        highest_in_range(terms.drop_last());
    }
}

/// `highest` names a position as soon as one term compares above the negated
/// unbounded value.
pub proof fn highest_names_a_position<A: Arith>(terms: Seq<A>, j: int)
    requires
        0 <= j < terms.len(),
        A::unbounded().negated().below(terms[j]),
    ensures
        highest(terms) is Some,
    decreases terms.len(),
{
    if j < terms.len() - 1 {
        highest_names_a_position(terms.drop_last(), j);
    }
}

/// No term compares below the one that `lowest` names, and of equal terms it names the
/// first; where it names none, no term compares below the unbounded value.
pub proof fn lowest_is_least<A: Arith>(terms: Seq<A>)
    requires
        below_is_an_order::<A>(),
    ensures
        match lowest(terms) {
            Some(k) => {
                &&& k < terms.len()
                &&& terms[k as int].below(A::unbounded())
                &&& forall|j: int|
                    0 <= j < terms.len() ==> !(#[trigger] terms[j]).below(terms[k as int])
                &&& forall|j: int| 0 <= j < k ==> #[trigger] terms[j] != terms[k as int]
            },
            None => forall|j: int|
                0 <= j < terms.len() ==> !(#[trigger] terms[j]).below(A::unbounded()),
        },
    decreases terms.len(),
{
    if terms.len() > 0 {
        let front = terms.drop_last();
        lowest_is_least(front);
        assert forall|j: int| 0 <= j < front.len() implies terms[j] == #[trigger] front[j] by {}
        match lowest(terms) {
            Some(k) => {
                assert forall|j: int| 0 <= j < terms.len() implies !(#[trigger] terms[j]).below(
                    terms[k as int],
                ) by {
                    if j < front.len() {
                        assert(front[j] == terms[j]);
                    }
                }
                assert forall|j: int| 0 <= j < k implies #[trigger] terms[j] != terms[k as int] by {
                    assert(front[j] == terms[j]);
                }
            },
            None => {
                assert forall|j: int| 0 <= j < terms.len() implies !(#[trigger] terms[j]).below(
                    A::unbounded(),
                ) by {
                    if j < front.len() {
                        assert(front[j] == terms[j]);
                    }
                }
            },
        }
    }
}

/// No term compares above the one that `highest` names, and of equal terms it names the
/// first; where it names none, no term compares above the negated unbounded value.
pub proof fn highest_is_greatest<A: Arith>(terms: Seq<A>)
    requires
        below_is_an_order::<A>(),
    ensures
        match highest(terms) {
            Some(k) => {
                &&& k < terms.len()
                &&& A::unbounded().negated().below(terms[k as int])
                &&& forall|j: int|
                    0 <= j < terms.len() ==> !terms[k as int].below(#[trigger] terms[j])
                &&& forall|j: int| 0 <= j < k ==> #[trigger] terms[j] != terms[k as int]
            },
            None => forall|j: int|
                0 <= j < terms.len() ==> !A::unbounded().negated().below(#[trigger] terms[j]),
        },
    decreases terms.len(),
{
    if terms.len() > 0 {
        let front = terms.drop_last();
        highest_is_greatest(front);
        match highest(terms) {
            Some(k) => {
                assert forall|j: int| 0 <= j < terms.len() implies !terms[k as int].below(
                    #[trigger] terms[j],
                ) by {
                    if j < front.len() {
                        assert(front[j] == terms[j]);
                    }
                }
                assert forall|j: int| 0 <= j < k implies #[trigger] terms[j] != terms[k as int] by {
                    assert(front[j] == terms[j]);
                }
            },
            None => {
                assert forall|j: int| 0 <= j < terms.len() implies !A::unbounded().negated().below(
                    #[trigger] terms[j],
                ) by {
                    if j < front.len() {
                        assert(front[j] == terms[j]);
                    }
                }
            },
        }
    }
}

/// Terms that can be ranked stay so without the last.
proof fn front_is_ranked<A: Arith>(terms: Seq<A>)
    requires
        terms.len() > 0,
        crate::order::ranked(terms),
    ensures
        crate::order::ranked(terms.drop_last()),
{
    let front = terms.drop_last();
    assert forall|i: int, j: int|
        0 <= i < front.len() && 0 <= j < front.len() && #[trigger] front[i].below(
            front[j],
        ) implies !front[j].below(front[i]) by {
        assert(terms[i].below(terms[j]));
    }
    assert forall|i: int, j: int, k: int|
        0 <= i < front.len() && 0 <= j < front.len() && 0 <= k < front.len()
            && !#[trigger] front[j].below(front[i]) && !#[trigger] front[k].below(
            front[j],
        ) implies !front[k].below(front[i]) by {
        assert(!terms[j].below(terms[i]) && !terms[k].below(terms[j]));
    }
}

/// Among terms that can be ranked, the one that `lowest` names lies below every earlier
/// one that can be compared: a tie goes to the first.
pub proof fn lowest_is_first<A: Arith>(terms: Seq<A>)
    requires
        below_is_an_order::<A>(),
        crate::order::ranked(terms),
    ensures
        lowest(terms) matches Some(k) ==> forall|j: int|
            0 <= j < k && (#[trigger] terms[j]).below(A::unbounded()) ==> terms[k as int].below(
                terms[j],
            ),
    decreases terms.len(),
{
    if terms.len() > 0 {
        let front = terms.drop_last();
        front_is_ranked(terms);
        lowest_is_first(front);
        lowest_is_least(front);
        if let Some(k) = lowest(terms) {
            assert forall|j: int|
                0 <= j < k && (#[trigger] terms[j]).below(
                    A::unbounded(),
                ) implies terms[k as int].below(terms[j]) by {
                assert(front[j] == terms[j]);
                if k == terms.len() - 1 {
                    let b = lowest(front)->0 as int;
                    assert(!terms[j].below(terms[b]));
                    assert(terms[k as int].below(terms[b]));
                }
            }
        }
    }
}

/// Among terms that can be ranked, the one that `highest` names lies above every earlier
/// one that can be compared: a tie goes to the first.
pub proof fn highest_is_first<A: Arith>(terms: Seq<A>)
    requires
        below_is_an_order::<A>(),
        crate::order::ranked(terms),
    ensures
        highest(terms) matches Some(k) ==> forall|j: int|
            0 <= j < k && A::unbounded().negated().below(#[trigger] terms[j]) ==> terms[j].below(
                terms[k as int],
            ),
    decreases terms.len(),
{
    if terms.len() > 0 {
        let front = terms.drop_last();
        front_is_ranked(terms);
        highest_is_first(front);
        highest_is_greatest(front);
        if let Some(k) = highest(terms) {
            assert forall|j: int|
                0 <= j < k && A::unbounded().negated().below(
                    #[trigger] terms[j],
                ) implies terms[j].below(terms[k as int]) by {
                assert(front[j] == terms[j]);
                if k == terms.len() - 1 {
                    let b = highest(front)->0 as int;
                    assert(!terms[b].below(terms[j]));
                    assert(terms[b].below(terms[k as int]));
                }
            }
        }
    }
}

/// The first position that holds the least term, if any term can be compared.
pub fn lowest_slot<S: Scalar>(terms: &[S]) -> (slot: Option<usize>)
    ensures
        position(slot) == lowest(terms@),
        slot matches Some(k) ==> k < terms@.len(),
{
    let mut slot: Option<usize> = None;
    let mut bar = S::infinity();
    for i in 0..terms.len()
        invariant
            position(slot) == lowest(terms@.take(i as int)),
            slot matches Some(k) ==> k < i,
            bar == (match slot {
                Some(k) => terms@[k as int],
                None => S::unbounded(),
            }),
    {
        proof {
            assert(terms@.take(i + 1).drop_last() == terms@.take(i as int));
        }
        if terms[i].lt(bar) {
            bar = terms[i];
            slot = Some(i);
        }
    }
    proof {
        assert(terms@.take(terms@.len() as int) == terms@);
    }
    slot
}

/// The first position that holds the greatest term, if any term can be compared.
pub fn highest_slot<S: Scalar>(terms: &[S]) -> (slot: Option<usize>)
    ensures
        position(slot) == highest(terms@),
        slot matches Some(k) ==> k < terms@.len(),
{
    let mut slot: Option<usize> = None;
    let mut bar = S::infinity().neg();
    for i in 0..terms.len()
        invariant
            position(slot) == highest(terms@.take(i as int)),
            slot matches Some(k) ==> k < i,
            bar == (match slot {
                Some(k) => terms@[k as int],
                None => S::unbounded().negated(),
            }),
    {
        proof {
            assert(terms@.take(i + 1).drop_last() == terms@.take(i as int));
        }
        if bar.lt(terms[i]) {
            bar = terms[i];
            slot = Some(i);
        }
    }
    proof {
        assert(terms@.take(terms@.len() as int) == terms@);
    }
    slot
}

/// The sum of `terms`, added up from the front.
pub fn sum<S: Scalar>(terms: &[S]) -> (r: S)
    ensures
        r == total(terms@),
{
    let mut r = S::from_count(0);
    for i in 0..terms.len()
        invariant
            r == total(terms@.take(i as int)),
    {
        proof {
            assert(terms@.take(i + 1).drop_last() == terms@.take(i as int));
        }
        r = r.add(terms[i]);
    }
    proof {
        assert(terms@.take(terms@.len() as int) == terms@);
    }
    r
}

} // verus!
