//! What holds of every thinning: what it keeps, how far it goes, and how one
//! thinning relates to another.

use crate::graph::{Correction, Transform};
use crate::scalar::Scalar;
use vstd::prelude::*;

verus! {

/// Every flag set in `fewer` is set in `more`.
pub open spec fn within(fewer: Seq<bool>, more: Seq<bool>) -> bool {
    &&& fewer.len() == more.len()
    &&& forall|i: int| 0 <= i < fewer.len() && #[trigger] fewer[i] ==> more[i]
}

/// The node ids tell the nodes apart.
pub open spec fn distinct_ids<S>(correction: Correction<S>) -> bool {
    forall|i: int, j: int|
        0 <= i < correction.nodes.len() && 0 <= j < correction.nodes.len() && i != j
            ==> #[trigger] correction.nodes[i].id != #[trigger] correction.nodes[j].id
}

/// Whether `part` consists of the listed nodes of `whole`, in their order: each with its id,
/// time and anchor, and with its own delta, whose rotation is normalized.
pub open spec fn consists_of<S: Scalar>(
    part: Correction<S>,
    whole: Correction<S>,
    kept: Seq<usize>,
) -> bool {
    &&& crate::selection::in_range(kept, whole.nodes.len())
    &&& crate::selection::ascending(kept)
    &&& part.nodes.len() == kept.len()
    &&& part.transforms.len() == kept.len()
    &&& part.blend_sigma == whole.blend_sigma
    &&& part.blend_time_sigma == whole.blend_time_sigma
    &&& forall|i: int|
        0 <= i < kept.len() ==> {
            let k = #[trigger] kept[i] as int;
            &&& part.nodes[i].id == whole.nodes[k].id
            &&& part.nodes[i].ts == whole.nodes[k].ts
            &&& part.nodes[i].position == whole.nodes[k].position
            &&& part.transforms[i].translation == whole.transforms[k].translation
            &&& part.transforms[i].rotation == whole.transforms[k].rotation.unit_or_no_turn()
        }
}

impl<S: Scalar> Correction<S> {
    /// Decimation keeps exactly as many nodes as it is asked for, or all where there
    /// are no more, and keeps them in order.
    pub proof fn decimation_meets_its_target(self, kept: Seq<usize>, target: nat)
        requires
            crate::selection::in_range(kept, self.nodes.len()),
            crate::selection::ascending(kept),
        ensures
            crate::selection::in_range(self.decimated(kept, target), self.nodes.len()),
            crate::selection::ascending(self.decimated(kept, target)),
            forall|k: usize| #[trigger]
                self.decimated(kept, target).contains(k) ==> kept.contains(k),
            self.decimated(kept, target).len() == if kept.len() <= target {
                kept.len()
            } else {
                target
            },
        decreases kept.len(),
    {
        if kept.len() > target {
            crate::sequence::lowest_in_range(self.redundancies(kept));
            let slot = self.most_redundant(kept);
            crate::selection::removal_keeps_order(kept, slot, self.nodes.len());
            let rest = kept.remove(slot);
            self.decimation_meets_its_target(rest, target);
            assert forall|k: usize| #[trigger]
                self.decimated(kept, target).contains(k) implies kept.contains(k) by {
                assert(self.decimated(rest, target).contains(k));
                assert(rest.contains(k));
            }
        }
    }

    /// Thinning to a node count leaves exactly `target` nodes, or all where there are
    /// no more; never more than `target`. They are nodes of the full correction, with
    /// their ids, and each has a delta. A target that is not below the node count
    /// changes nothing, and a target of zero leaves nothing. The bandwidths stay.
    pub proof fn thinning_meets_its_target(self, target: nat)
        requires
            self.nodes.len() <= usize::MAX,
        ensures
            ({
                let thinned = self.thinned_to(target);
                &&& thinned.nodes.len() <= target
                &&& thinned.nodes.len() == if self.nodes.len() <= target {
                    self.nodes.len()
                } else {
                    target
                }
                &&& self.nodes.len() > 0 ==> self.thinned_to(0) == self.only(Seq::empty())
                &&& forall|i: int|
                    0 <= i < thinned.nodes.len() ==> self.nodes.contains(
                        #[trigger] thinned.nodes[i],
                    )
                &&& self.aligned() ==> thinned.aligned()
                &&& target >= self.nodes.len() ==> thinned == self
                &&& thinned.blend_sigma == self.blend_sigma
                &&& thinned.blend_time_sigma == self.blend_time_sigma
            }),
    {
        self.decimation_meets_its_target(self.all(), target);
        self.decimation_meets_its_target(self.all(), 0);
        assert(self.decimated(self.all(), 0) =~= Seq::empty());
        let kept = self.decimated(self.all(), target);
        let thinned = self.thinned_to(target);
        assert forall|i: int| 0 <= i < thinned.nodes.len() implies self.nodes.contains(
            #[trigger] thinned.nodes[i],
        ) by {
            if self.nodes.len() > target {
                assert(kept[i] < self.nodes.len());
                assert(self.nodes[kept[i] as int] == thinned.nodes[i]);
            }
        }
    }

    /// A correction thinned to a node count consists of the nodes that decimation kept, each
    /// with its own delta; one thinned within a budget, of the nodes that the budget kept.
    pub proof fn thinning_keeps_nodes_with_their_deltas(
        self,
        target: nat,
        max_error: S,
        seed: Option<Seq<u64>>,
    )
        requires
            self.nodes.len() <= usize::MAX,
        ensures
            target < self.nodes.len() ==> consists_of(
                self.thinned_to(target),
                self,
                self.decimated(self.all(), target),
            ),
            1 < self.nodes.len() ==> consists_of(
                self.thinned_within(max_error, seed),
                self,
                crate::selection::marked(self.kept_within(max_error, seed), true),
            ),
            self.nodes.len() <= target ==> self.thinned_to(target) == self,
            self.nodes.len() <= 1 ==> self.thinned_within(max_error, seed) == self,
    {
        self.decimation_meets_its_target(self.all(), target);
        if 1 < self.nodes.len() {
            self.thinning_stays_within_budget(max_error, seed);
        }
    }

    /// A seed flags the nodes whose ids it lists and no others, where it lists any id of the
    /// correction; without a seed every node is flagged.
    pub proof fn seed_flags_its_nodes(self, seed: Seq<u64>, i: int)
        requires
            0 <= i < self.nodes.len(),
        ensures
            self.seeded(None).len() == self.nodes.len(),
            self.seeded(None)[i],
            self.seeded(Some(seed)).len() == self.nodes.len(),
            (exists|k: int|
                0 <= k < self.nodes.len() && seed.contains((#[trigger] self.nodes[k]).id)) ==> (
            self.seeded(Some(seed))[i] <==> seed.contains(self.nodes[i].id)),
    {
        let flags = Seq::new(self.nodes.len(), |k: int| seed.contains(self.nodes[k].id));
        if exists|k: int|
            0 <= k < self.nodes.len() && seed.contains((#[trigger] self.nodes[k]).id) {
            let k = choose|k: int|
                0 <= k < self.nodes.len() && seed.contains((#[trigger] self.nodes[k]).id);
            assert(flags[k]);
        }
    }

    /// Decimating further goes on from where decimating less far stopped, so the
    /// nodes kept for a smaller target are among those kept for a larger one.
    pub proof fn decimation_is_nested(self, kept: Seq<usize>, far: nat, near: nat)
        requires
            far <= near,
        ensures
            self.decimated(self.decimated(kept, near), far) == self.decimated(kept, far),
        decreases kept.len(),
    {
        if kept.len() > near {
            crate::sequence::lowest_in_range(self.redundancies(kept));
            self.decimation_is_nested(kept.remove(self.most_redundant(kept)), far, near);
        }
    }

    /// Each step drops a most redundant node: none of the kept nodes is rebuilt with
    /// a smaller error by the others.
    pub proof fn decimation_drops_the_most_redundant(self, kept: Seq<usize>, target: nat)
        requires
            crate::sequence::below_is_an_order::<S>(),
            kept.len() > target,
        ensures
            ({
                let slot = self.most_redundant(kept);
                let errors = self.redundancies(kept);
                &&& 0 <= slot < kept.len()
                &&& self.decimated(kept, target) == self.decimated(kept.remove(slot), target)
                &&& forall|other: int|
                    0 <= other < kept.len() && errors[slot].below(S::unbounded())
                        ==> !(#[trigger] errors[other]).below(errors[slot])
                &&& !errors[slot].below(S::unbounded()) ==> forall|other: int|
                    0 <= other < kept.len() ==> !(#[trigger] errors[other]).below(S::unbounded())
            }),
    {
        crate::sequence::lowest_is_least(self.redundancies(kept));
        crate::sequence::lowest_in_range(self.redundancies(kept));
    }

    /// A warm start flags at least one node.
    proof fn seeded_is_never_empty(self, seed: Option<Seq<u64>>)
        requires
            self.nodes.len() > 0,
        ensures
            self.seeded(seed).len() == self.nodes.len(),
            self.seeded(seed).contains(true),
    {
        let whole = Seq::new(self.nodes.len(), |i: int| true);
        assert(whole[0]);
    }

    /// A seed whose ids are all unknown starts from the full graph.
    pub proof fn unknown_seed_starts_cold(self, seed: Seq<u64>, max_error: S)
        requires
            forall|i: int|
                0 <= i < self.nodes.len() ==> !seed.contains(#[trigger] self.nodes[i].id),
        ensures
            self.thinned_within(max_error, Some(seed)) == self.thinned_within(max_error, None),
    {
        let flags = Seq::new(self.nodes.len(), |i: int| seed.contains(self.nodes[i].id));
        if flags.contains(true) {
            let i = choose|i: int| 0 <= i < flags.len() && flags[i];
            assert(!seed.contains(self.nodes[i].id));
        }
    }

    /// Restoring only adds nodes, and stops when the summed miss fits the budget or
    /// no dropped node's miss can be compared.
    proof fn restoring_settles(self, flags: Seq<bool>, max_error: S)
        requires
            flags.len() <= usize::MAX,
        ensures
            within(flags, self.restored(flags, max_error)),
            self.settled(self.restored(flags, max_error), max_error),
        decreases crate::selection::marked(flags, false).len(),
    {
        if !self.total_miss(flags).at_most(max_error) {
            match crate::sequence::highest(self.misses(flags)) {
                Some(k) => {
                    let dropped = crate::selection::marked(flags, false);
                    let d = dropped[k as int] as int;
                    crate::sequence::highest_in_range(self.misses(flags));
                    crate::selection::marked_lists_the_flags(flags, false);
                    assert(dropped.contains(dropped[k as int]));
                    crate::selection::marking_one(flags, d, true);
                    let more = flags.update(d, true);
                    self.restoring_settles(more, max_error);
                    assert forall|i: int|
                        0 <= i < flags.len() && #[trigger] flags[i] implies self.restored(
                        flags,
                        max_error,
                    )[i] by {
                        assert(more[i]);
                    }
                },
                None => {},
            }
        }
    }

    /// Restoring adds back a worst-missed node: no dropped node is missed by more.
    pub proof fn restoring_adds_the_worst_missed(self, flags: Seq<bool>, max_error: S)
        requires
            crate::sequence::below_is_an_order::<S>(),
            flags.len() <= usize::MAX,
            !self.total_miss(flags).at_most(max_error),
            crate::sequence::highest(self.misses(flags)) is Some,
        ensures
            ({
                let dropped = crate::selection::marked(flags, false);
                let misses = self.misses(flags);
                let slot = crate::sequence::highest(misses)->0 as int;
                &&& 0 <= slot < dropped.len()
                &&& self.restored(flags, max_error) == self.restored(
                    flags.update(dropped[slot] as int, true),
                    max_error,
                )
                &&& forall|other: int|
                    0 <= other < dropped.len() ==> !misses[slot].below(#[trigger] misses[other])
            }),
    {
        let dropped = crate::selection::marked(flags, false);
        let misses = self.misses(flags);
        crate::sequence::highest_is_greatest(misses);
        crate::selection::marked_lists_the_flags(flags, false);
        let slot = crate::sequence::highest(misses)->0 as int;
        assert(dropped[slot] < flags.len());
    }

    /// Nothing is left to restore: the summed miss fits the budget, or no dropped
    /// node's miss can be compared (where nothing is dropped, none can).
    pub open spec fn settled(self, flags: Seq<bool>, max_error: S) -> bool {
        ||| self.total_miss(flags).at_most(max_error)
        ||| crate::sequence::highest(self.misses(flags)) is None
    }

    /// Pruning only drops nodes, never the last one, keeps a settled selection
    /// settled, and goes on until the cheapest drop no longer fits the budget.
    proof fn pruning_settles(self, flags: Seq<bool>, max_error: S)
        requires
            flags.len() <= usize::MAX,
            flags.contains(true),
            self.settled(flags, max_error),
        ensures
            ({
                let end = self.pruned(flags, max_error);
                &&& within(end, flags)
                &&& end.contains(true)
                &&& self.settled(end, max_error)
                &&& crate::selection::marked(end, true).len() <= 1 || !self.total_miss(
                    end.update(self.cheapest(end), false),
                ).at_most(max_error)
                &&& self.pruned(end, max_error) == end
            }),
        decreases crate::selection::marked(flags, true).len(),
    {
        let kept = crate::selection::marked(flags, true);
        let trial = flags.update(self.cheapest(flags), false);
        if kept.len() > 1 && self.total_miss(trial).at_most(max_error) {
            self.cheapest_is_kept(flags);
            crate::selection::marking_one(flags, self.cheapest(flags), false);
            crate::selection::marked_lists_the_flags(trial, true);
            let one = crate::selection::marked(trial, true)[0];
            assert(crate::selection::marked(trial, true).contains(one));
            assert(trial[one as int]);
            self.pruning_settles(trial, max_error);
            let end = self.pruned(flags, max_error);
            assert forall|i: int| 0 <= i < end.len() && #[trigger] end[i] implies flags[i] by {
                assert(trial[i]);
            }
        }
    }

    /// Pruning drops a cheapest node: dropping no other kept node would leave a smaller
    /// summed miss.
    pub proof fn pruning_drops_the_cheapest(self, flags: Seq<bool>, max_error: S)
        requires
            crate::sequence::below_is_an_order::<S>(),
            flags.len() <= usize::MAX,
            crate::selection::marked(flags, true).len() > 1,
            self.total_miss(flags.update(self.cheapest(flags), false)).at_most(max_error),
        ensures
            ({
                let kept = crate::selection::marked(flags, true);
                let prices = self.prices(flags);
                let slot = crate::sparsify::slot_or_first(crate::sequence::lowest(prices));
                &&& 0 <= slot < kept.len()
                &&& self.pruned(flags, max_error) == self.pruned(
                    flags.update(kept[slot] as int, false),
                    max_error,
                )
                &&& forall|other: int|
                    0 <= other < kept.len() && prices[slot].below(S::unbounded())
                        ==> !(#[trigger] prices[other]).below(prices[slot])
            }),
    {
        crate::sequence::lowest_is_least(self.prices(flags));
        self.cheapest_is_kept(flags);
    }

    /// A thinning within a budget keeps at least one node. As soon as it drops a node
    /// whose miss can be compared at all, the summed miss against the full deformation
    /// stays within the budget. And it goes as far as it can: one node is left, or
    /// dropping the cheapest one would exceed the budget; where `<` and `<=` behave and the
    /// budget can be compared, dropping any further node would exceed it.
    pub proof fn thinning_stays_within_budget(self, max_error: S, seed: Option<Seq<u64>>)
        requires
            0 < self.nodes.len() <= usize::MAX,
        ensures
            ({
                let flags = self.kept_within(max_error, seed);
                let kept = crate::selection::marked(flags, true);
                &&& flags.len() == self.nodes.len()
                &&& kept.len() >= 1
                &&& crate::selection::in_range(kept, self.nodes.len())
                &&& crate::selection::ascending(kept)
                &&& forall|j: int|
                    0 <= j < self.misses(flags).len() && S::unbounded().negated().below(
                        #[trigger] self.misses(flags)[j],
                    ) ==> self.total_miss(flags).at_most(max_error)
                &&& self.settled(flags, max_error)
                &&& kept.len() == 1 || !self.total_miss(
                    flags.update(self.cheapest(flags), false),
                ).at_most(max_error)
                &&& crate::sequence::below_is_an_order::<S>()
                    && crate::sequence::limits_separate::<S>() && max_error.below(S::unbounded())
                    ==> kept.len() == 1 || forall|slot: int|
                    0 <= slot < kept.len() ==> !self.total_miss(
                        flags.update(#[trigger] kept[slot] as int, false),
                    ).at_most(max_error)
            }),
    {
        let start = self.seeded(seed);
        self.seeded_is_never_empty(seed);
        self.restoring_settles(start, max_error);
        let restored = self.restored(start, max_error);
        let i = choose|i: int| 0 <= i < start.len() && start[i];
        assert(restored[i]);
        self.pruning_settles(restored, max_error);
        let flags = self.kept_within(max_error, seed);
        crate::selection::marked_lists_the_flags(flags, true);
        let j = choose|j: int| 0 <= j < flags.len() && flags[j];
        assert(crate::selection::marked(flags, true).contains(j as usize));
        let misses = self.misses(flags);
        assert forall|j: int|
            0 <= j < misses.len() && S::unbounded().negated().below(
                #[trigger] misses[j],
            ) implies self.total_miss(flags).at_most(max_error) by {
            crate::sequence::highest_names_a_position(misses, j);
        }
        let kept = crate::selection::marked(flags, true);
        if crate::sequence::below_is_an_order::<S>() && crate::sequence::limits_separate::<S>()
            && max_error.below(S::unbounded()) && kept.len() > 1 {
            let prices = self.prices(flags);
            crate::sequence::lowest_is_least(prices);
            assert forall|slot: int| 0 <= slot < kept.len() implies !self.total_miss(
                flags.update(#[trigger] kept[slot] as int, false),
            ).at_most(max_error) by {
                assert(prices[slot] == self.total_miss(flags.update(kept[slot] as int, false)));
                let least = crate::sparsify::slot_or_first(crate::sequence::lowest(prices));
                assert(prices[least] == self.total_miss(
                    flags.update(self.cheapest(flags), false),
                ));
            }
        }
    }

    /// The nodes of a thinned correction are nodes of the full one, in their order
    /// and with their ids, and there is a delta for each. The bandwidths stay.
    pub proof fn thinning_keeps_original_nodes(self, max_error: S, seed: Option<Seq<u64>>)
        requires
            self.nodes.len() <= usize::MAX,
        ensures
            ({
                let thinned = self.thinned_within(max_error, seed);
                &&& self.nodes.len() > 0 ==> thinned.nodes.len() > 0
                &&& thinned.nodes.len() <= self.nodes.len()
                &&& forall|i: int|
                    0 <= i < thinned.nodes.len() ==> self.nodes.contains(
                        #[trigger] thinned.nodes[i],
                    )
                &&& self.aligned() ==> thinned.aligned()
                &&& thinned.blend_sigma == self.blend_sigma
                &&& thinned.blend_time_sigma == self.blend_time_sigma
            }),
    {
        if self.nodes.len() > 1 {
            self.thinning_stays_within_budget(max_error, seed);
            let flags = self.kept_within(max_error, seed);
            crate::selection::marked_lists_the_flags(flags, true);
            let kept = crate::selection::marked(flags, true);
            let thinned = self.thinned_within(max_error, seed);
            assert forall|i: int| 0 <= i < thinned.nodes.len() implies self.nodes.contains(
                #[trigger] thinned.nodes[i],
            ) by {
                assert(kept[i] < self.nodes.len());
                assert(self.nodes[kept[i] as int] == thinned.nodes[i]);
            }
        }
    }

    /// Pruning with a larger budget goes on from where a smaller one stopped.
    proof fn pruning_goes_on(self, flags: Seq<bool>, tight: S, loose: S)
        requires
            crate::sequence::at_most_is_transitive::<S>(),
            tight.at_most(loose),
            flags.len() <= usize::MAX,
        ensures
            self.pruned(self.pruned(flags, tight), loose) == self.pruned(flags, loose),
        decreases crate::selection::marked(flags, true).len(),
    {
        let kept = crate::selection::marked(flags, true);
        let trial = flags.update(self.cheapest(flags), false);
        if kept.len() > 1 && self.total_miss(trial).at_most(tight) {
            self.cheapest_is_kept(flags);
            crate::selection::marking_one(flags, self.cheapest(flags), false);
            self.pruning_goes_on(trial, tight, loose);
            assert(self.total_miss(trial).at_most(loose));
        }
    }

    /// Pruning only drops nodes.
    proof fn pruning_only_drops(self, flags: Seq<bool>, max_error: S)
        requires
            flags.len() <= usize::MAX,
        ensures
            within(self.pruned(flags, max_error), flags),
        decreases crate::selection::marked(flags, true).len(),
    {
        let kept = crate::selection::marked(flags, true);
        let trial = flags.update(self.cheapest(flags), false);
        if kept.len() > 1 && self.total_miss(trial).at_most(max_error) {
            self.cheapest_is_kept(flags);
            crate::selection::marking_one(flags, self.cheapest(flags), false);
            self.pruning_only_drops(trial, max_error);
            let end = self.pruned(flags, max_error);
            assert forall|i: int| 0 <= i < end.len() && #[trigger] end[i] implies flags[i] by {
                assert(trial[i]);
            }
        }
    }

    /// A cold start has nothing to restore.
    proof fn cold_start_restores_nothing(self, max_error: S)
        requires
            self.nodes.len() <= usize::MAX,
        ensures
            self.restored(self.seeded(None), max_error) == self.seeded(None),
    {
        let whole = self.seeded(None);
        crate::selection::marked_lists_the_flags(whole, false);
        let dropped = crate::selection::marked(whole, false);
        if dropped.len() > 0 {
            assert(dropped.contains(dropped[0]));
        }
        assert(self.misses(whole).len() == 0);
    }

    /// From a cold start, a larger budget keeps no node that a smaller one drops.
    pub proof fn larger_budget_keeps_fewer(self, tight: S, loose: S)
        requires
            crate::sequence::at_most_is_transitive::<S>(),
            tight.at_most(loose),
            self.nodes.len() <= usize::MAX,
        ensures
            within(self.kept_within(loose, None), self.kept_within(tight, None)),
            self.thinned_within(loose, None).nodes.len() <= self.thinned_within(
                tight,
                None,
            ).nodes.len(),
    {
        let whole = self.seeded(None);
        self.cold_start_restores_nothing(tight);
        self.cold_start_restores_nothing(loose);
        self.pruning_goes_on(whole, tight, loose);
        self.pruning_only_drops(whole, tight);
        let more = self.pruned(whole, tight);
        self.pruning_only_drops(more, loose);
        fewer_flags_list_fewer(self.pruned(more, loose), more);
    }

    /// Thinning again, warm-started from the ids that a thinning kept, keeps the same
    /// nodes: the seed only changes where the search starts.
    pub proof fn rethinning_keeps_the_selection(self, max_error: S, seed: Option<Seq<u64>>)
        requires
            distinct_ids(self),
            self.nodes.len() <= usize::MAX,
        ensures
            ({
                let first = self.thinned_within(max_error, seed);
                self.thinned_within(max_error, Some(first.ids())) == first
            }),
    {
        if self.nodes.len() > 1 {
            let flags = self.kept_within(max_error, seed);
            let first = self.thinned_within(max_error, seed);
            let ids = first.ids();
            let kept = crate::selection::marked(flags, true);
            self.thinning_stays_within_budget(max_error, seed);
            crate::selection::marked_lists_the_flags(flags, true);
            assert forall|i: int| 0 <= i < flags.len() implies #[trigger] flags[i] == ids.contains(
                self.nodes[i].id,
            ) by {
                if flags[i] {
                    assert(kept.contains(i as usize));
                    let p = choose|p: int| 0 <= p < kept.len() && kept[p] == i as usize;
                    assert(ids[p] == self.nodes[i].id);
                }
                if ids.contains(self.nodes[i].id) {
                    let p = choose|p: int| 0 <= p < ids.len() && ids[p] == self.nodes[i].id;
                    assert(kept.contains(kept[p]));
                    assert(self.nodes[kept[p] as int].id == self.nodes[i].id);
                    assert(kept[p] as int == i);
                }
            }
            assert(kept.contains(kept[0]));
            assert(flags[kept[0] as int]);
            let seed_flags = Seq::new(
                self.nodes.len(),
                |i: int| ids.contains(self.nodes[i].id),
            );
            assert(seed_flags =~= flags);
            assert(self.seeded(Some(ids)) == flags);
            // The restored selection was settled, and pruning a pruned one stops at once.
            let start = self.seeded(seed);
            self.seeded_is_never_empty(seed);
            self.restoring_settles(start, max_error);
            let i = choose|i: int| 0 <= i < start.len() && start[i];
            assert(self.restored(start, max_error)[i]);
            self.pruning_settles(self.restored(start, max_error), max_error);
        }
    }
}

impl<S: Scalar> Correction<S> {
    /// The ids of all nodes seed a cold start.
    proof fn all_ids_seed_a_cold_start(self)
        ensures
            self.seeded(Some(self.ids())) == self.seeded(None),
    {
        let ids = self.ids();
        let flags = Seq::new(self.nodes.len(), |i: int| ids.contains(self.nodes[i].id));
        assert forall|i: int| 0 <= i < flags.len() implies #[trigger] flags[i] by {
            assert(ids[i] == self.nodes[i].id);
        }
        assert(flags =~= self.seeded(None));
    }

    /// Warm-starting an update from the set kept last time reproduces a thinning from
    /// scratch, where the correction is the same: a fresh handle is seeded with all
    /// ids, and an update of it with the ids that it kept.
    pub proof fn warm_update_matches_a_cold_thinning(self, max_error: S)
        requires
            distinct_ids(self),
            self.nodes.len() <= usize::MAX,
        ensures
            ({
                let cold = self.thinned_within(max_error, None);
                let first = self.thinned_within(max_error, Some(self.ids()));
                &&& first == cold
                &&& self.thinned_within(max_error, Some(first.ids())) == cold
            }),
    {
        self.all_ids_seed_a_cold_start();
        self.rethinning_keeps_the_selection(max_error, None);
    }

    /// A thinning blends as the warp does: where squaring a distance gives back the
    /// squared distance, the blend of some members at a node's anchor and time is what
    /// the warp blends there from these members alone. Nothing of any other node enters.
    pub proof fn thinning_blends_as_the_warp_does(
        self,
        members: Seq<usize>,
        index: usize,
        sigma: S,
        time_sigma: S,
    )
        requires
            members.len() > 1,
            forall|i: int|
                0 <= i < members.len() ==> {
                    let anchor = self.positions()[index as int];
                    let other = self.positions()[#[trigger] members[i] as int];
                    anchor.gap(other).times(anchor.gap(other)) == anchor.gap_squared(other)
                },
        ensures
            self.blended(members, index, sigma, time_sigma) == self.blend_of(
                members,
                sigma,
                time_sigma,
            ).at(self.positions()[index as int], Some(self.times()[index as int])),
    {
        let part = self.blend_of(members, sigma, time_sigma);
        let (point, time) = (self.positions()[index as int], self.times()[index as int]);
        let spreads = self.spreads(members, index, sigma, time_sigma);
        assert forall|i: int| 0 <= i < members.len() implies spreads[i] == part.spreads(
            point,
            Some(time),
        )[i] by {
            let other = self.positions()[members[i] as int];
            assert(part.positions[i] == other);
        }
        assert(spreads =~= part.spreads(point, Some(time)));
    }

    /// No dropped anchor drifts beyond the budget: where the thinned blend sends it is no
    /// farther from where the full correction sends it. (The misses can be compared and
    /// build up, as distances do.)
    pub proof fn no_dropped_anchor_drifts_beyond_the_budget(
        self,
        max_error: S,
        seed: Option<Seq<u64>>,
        slot: int,
    )
        requires
            crate::sequence::at_most_is_transitive::<S>(),
            crate::sequence::builds_up(self.misses(self.kept_within(max_error, seed))),
            0 < self.nodes.len() <= usize::MAX,
            0 <= slot < crate::selection::marked(
                self.kept_within(max_error, seed),
                false,
            ).len(),
            S::unbounded().negated().below(
                self.misses(self.kept_within(max_error, seed))[slot],
            ),
        ensures
            ({
                let flags = self.kept_within(max_error, seed);
                let kept = crate::selection::marked(flags, true);
                let node = crate::selection::marked(flags, false)[slot];
                self.full_target(node).gap(
                    self.deformed(kept, node, self.sigma_of(kept), self.time_sigma_of(kept)),
                ).at_most(max_error)
            }),
    {
        let flags = self.kept_within(max_error, seed);
        let misses = self.misses(flags);
        self.thinning_stays_within_budget(max_error, seed);
        crate::sequence::total_dominates_its_terms(misses);
        assert(misses[slot].at_most(self.total_miss(flags)));
    }

    /// An error is measured with the bandwidths that the thinned correction blends
    /// with, as soon as two nodes are left (or the bandwidths are configured).
    pub proof fn errors_use_the_thinned_bandwidths(self, kept: Seq<usize>)
        requires
            crate::selection::in_range(kept, self.nodes.len()),
        ensures
            kept.len() >= 2 || S::of_count(0).below(self.blend_sigma) ==> self.only(
                kept,
            ).blend().sigma == self.sigma_of(kept),
            kept.len() >= 2 || S::of_count(0).below(self.blend_time_sigma) ==> self.only(
                kept,
            ).blend().time_sigma == self.time_sigma_of(kept),
    {
        let thinned = self.only(kept);
        assert(thinned.positions() =~= crate::selection::picked(self.positions(), kept));
        assert(thinned.times() =~= crate::selection::picked(self.times(), kept));
    }

    /// What a thinning measures is what the thinned correction does: warped by it, an
    /// anchor goes where the thinning said it would. It is so to the last digit where the
    /// kept nodes stand in the order of their times, their normalized rotations are
    /// normal, and squaring a distance gives back the squared distance; `exact` states it
    /// without these.
    pub proof fn thinned_warp_sends_anchors_where_measured(self, kept: Seq<usize>, index: usize)
        requires
            1 < kept.len() <= usize::MAX,
            self.aligned(),
            crate::selection::in_range(kept, self.nodes.len()),
            forall|i: int, j: int|
                0 <= i < j < kept.len() ==> !self.times()[#[trigger] kept[j] as int].below(
                    self.times()[#[trigger] kept[i] as int],
                ),
            forall|i: int|
                0 <= i < kept.len() ==> {
                    let rotation = self.rotations()[#[trigger] kept[i] as int];
                    let anchor = self.positions()[index as int];
                    let other = self.positions()[kept[i] as int];
                    &&& rotation.unit_or_no_turn() == rotation
                    &&& anchor.gap(other).times(anchor.gap(other)) == anchor.gap_squared(other)
                },
        ensures
            ({
                let (rotation, translation) = self.only(kept).blend().at(
                    self.positions()[index as int],
                    Some(self.times()[index as int]),
                );
                self.deformed(kept, index, self.sigma_of(kept), self.time_sigma_of(kept)) == (
                Transform { translation, rotation }).moved(self.positions()[index as int])
            }),
    {
        let (sigma, time_sigma) = (self.sigma_of(kept), self.time_sigma_of(kept));
        let thinned = self.only(kept);
        let part = self.blend_of(kept, sigma, time_sigma);
        let blend = thinned.blend();
        assert forall|i: int| 0 <= i < kept.len() implies #[trigger] kept[i]
            < self.transforms.len() by {}
        assert(thinned.positions() =~= part.positions);
        assert(thinned.times() =~= part.times);
        assert forall|i: int| 0 <= i < kept.len() implies #[trigger] thinned.translations()[i]
            == part.translations[i] && thinned.rotations()[i] == part.rotations[i] by {
            assert(kept[i] < self.transforms.len());
        }
        assert(thinned.translations() =~= part.translations);
        assert forall|i: int| 0 <= i < kept.len() implies #[trigger] thinned.rotations()[i]
            == part.rotations[i] by {
            assert(thinned.translations()[i] == part.translations[i]);
        }
        assert(thinned.rotations() =~= part.rotations);
        assert forall|i: int, j: int| 0 <= i < j < part.times.len() implies !(
        #[trigger] part.times[j]).below(#[trigger] part.times[i]) by {
            let _ = (kept[i], kept[j]);
        }
        crate::order::stable_order_keeps_sorted_keys(part.times);
        assert(blend.positions =~= part.positions);
        assert(blend.times =~= part.times);
        assert(blend.rotations =~= part.rotations);
        assert(blend.translations =~= part.translations);
        self.errors_use_the_thinned_bandwidths(kept);
        assert(blend == part);
        self.thinning_blends_as_the_warp_does(kept, index, sigma, time_sigma);
    }
}

/// Whether two corrections have the same nodes and bandwidths, and the same deltas but for
/// that of one node.
pub open spec fn differ_in_one_delta<S: Scalar>(
    one: Correction<S>,
    other: Correction<S>,
    node: int,
) -> bool {
    &&& other.nodes == one.nodes
    &&& other.blend_sigma == one.blend_sigma
    &&& other.blend_time_sigma == one.blend_time_sigma
    &&& other.transforms.len() == one.transforms.len()
    &&& forall|k: int|
        0 <= k < one.transforms.len() && k != node ==> #[trigger] other.transforms[k]
            == one.transforms[k]
}

/// Whether every blend of some of the nodes gives one delta, as it does under exact
/// arithmetic where all nodes carry it.
pub open spec fn blends_to_one_delta<S: Scalar>(
    correction: Correction<S>,
    delta: Transform<S>,
) -> bool {
    forall|members: Seq<usize>, index: usize, sigma: S, time_sigma: S|
        members.len() > 0 && crate::selection::in_range(members, correction.nodes.len())
            ==> #[trigger] correction.blended(members, index, sigma, time_sigma) == (
            delta.rotation,
            delta.translation,
        )
}

impl<S: Scalar> Correction<S> {
    /// A thinning blends the normalized deltas of the members, each under the exponential of
    /// the opposite of its spread from the anchor and time of the node, as the warp does with
    /// its nodes.
    pub proof fn members_blend_under_exponentials(
        self,
        members: Seq<usize>,
        index: usize,
        sigma: S,
        time_sigma: S,
    )
        requires
            self.aligned(),
            crate::selection::in_range(members, self.nodes.len()),
        ensures
            ({
                let n = members.len();
                let spreads = Seq::new(
                    n,
                    |i: int| self.spread(members[i], index, sigma, time_sigma),
                );
                self.blended(members, index, sigma, time_sigma) == crate::warp::mixed(
                    Seq::new(
                        n,
                        |i: int| self.transforms[members[i] as int].rotation.unit_or_no_turn(),
                    ),
                    Seq::new(n, |i: int| self.transforms[members[i] as int].translation),
                    spreads,
                    Seq::new(n, |i: int| spreads[i].negated().exponential()),
                )
            }),
    {
        let n = members.len();
        let spreads = Seq::new(n, |i: int| self.spread(members[i], index, sigma, time_sigma));
        let weights = Seq::new(n, |i: int| spreads[i].negated().exponential());
        assert(self.spreads(members, index, sigma, time_sigma) =~= spreads);
        assert(crate::warp::gaussians(spreads) =~= weights);
        assert forall|i: int| 0 <= i < n implies #[trigger] members[i]
            < self.transforms.len() by {}
        assert(crate::selection::picked(self.rotations(), members) =~= Seq::new(
            n,
            |i: int| self.transforms[members[i] as int].rotation.unit_or_no_turn(),
        )) by {
            assert forall|i: int| 0 <= i < n implies self.rotations()[#[trigger] members[i] as int]
                == self.transforms[members[i] as int].rotation.unit_or_no_turn() by {}
        }
        assert(crate::selection::picked(self.translations(), members) =~= Seq::new(
            n,
            |i: int| self.transforms[members[i] as int].translation,
        )) by {
            assert forall|i: int| 0 <= i < n implies self.translations()[
                #[trigger] members[i] as int
            ] == self.transforms[members[i] as int].translation by {}
        }
    }

    /// A blend of some members moves an anchor rigidly: it is turned and then shifted by the
    /// blended delta, in all three coordinates.
    pub proof fn members_move_an_anchor_rigidly(
        self,
        members: Seq<usize>,
        index: usize,
        sigma: S,
        time_sigma: S,
    )
        requires
            index < self.nodes.len(),
        ensures
            ({
                let anchor = self.nodes[index as int].position;
                let (rotation, translation) = self.blended(members, index, sigma, time_sigma);
                let turned = rotation.turned(anchor);
                let sent = self.deformed(members, index, sigma, time_sigma);
                &&& sent.x == turned.x.plus(translation.x)
                &&& sent.y == turned.y.plus(translation.y)
                &&& sent.z == turned.z.plus(translation.z)
            }),
    {
    }

    /// The target that a kept set is scored against is where the full correction sends that
    /// anchor: the blend of all nodes, with the bandwidths of all of them, turns and shifts
    /// it in all three coordinates. Where squaring a distance gives back the squared
    /// distance, and the nodes stand in the order of their times, it is where a warp by the
    /// full correction sends the anchor.
    pub proof fn full_target_is_the_full_deformation(self, index: usize)
        requires
            1 < self.nodes.len() <= usize::MAX,
            self.nodes.len() == self.transforms.len(),
            index < self.nodes.len(),
        ensures
            ({
                let anchor = self.nodes[index as int].position;
                let time = Some(self.nodes[index as int].ts);
                let all = crate::selection::everyone(self.nodes.len());
                let (rotation, translation) = self.blended(
                    all,
                    index,
                    self.sigma_of(all),
                    self.time_sigma_of(all),
                );
                let (warp_rotation, warp_translation) = self.blend().at(anchor, time);
                &&& self.full_target(index) == (Transform { translation, rotation }).moved(anchor)
                &&& (forall|k: int|
                    0 <= k < self.nodes.len() ==> {
                        let other = (#[trigger] self.nodes[k]).position;
                        anchor.gap(other).times(anchor.gap(other)) == anchor.gap_squared(other)
                    }) && (forall|i: int, j: int|
                    0 <= i < j < self.nodes.len() ==> !(#[trigger] self.nodes[j]).ts.below(
                        (#[trigger] self.nodes[i]).ts,
                    )) ==> self.full_target(index) == (Transform {
                    translation: warp_translation,
                    rotation: warp_rotation,
                }).moved(anchor)
            }),
    {
        let all = crate::selection::everyone(self.nodes.len());
        let (sigma, time_sigma) = (self.sigma_of(all), self.time_sigma_of(all));
        let anchor = self.nodes[index as int].position;
        if (forall|k: int|
            0 <= k < self.nodes.len() ==> {
                let other = (#[trigger] self.nodes[k]).position;
                anchor.gap(other).times(anchor.gap(other)) == anchor.gap_squared(other)
            }) && (forall|i: int, j: int|
            0 <= i < j < self.nodes.len() ==> !(#[trigger] self.nodes[j]).ts.below(
                (#[trigger] self.nodes[i]).ts,
            )) {
            self.blend_is_sorted_by_time();
            let blend = self.blend();
            let part = self.blend_of(all, sigma, time_sigma);
            assert(self.time_order() == all);
            assert(crate::selection::picked(self.positions(), all) =~= self.positions());
            assert(crate::selection::picked(self.times(), all) =~= self.times());
            assert(blend.positions =~= part.positions);
            assert(blend.times =~= part.times);
            assert(blend.rotations =~= part.rotations);
            assert(blend.translations =~= part.translations);
            assert(blend == part);
            assert forall|i: int| 0 <= i < all.len() implies {
                let other = self.positions()[#[trigger] all[i] as int];
                anchor.gap(other).times(anchor.gap(other)) == anchor.gap_squared(other)
            } by {
                assert(self.positions()[all[i] as int] == self.nodes[i].position);
            }
            self.thinning_blends_as_the_warp_does(all, index, sigma, time_sigma);
        }
    }

    /// The misses of a kept set are one for each dropped node, in their order: how far the
    /// blend of the kept nodes, with their own bandwidths, sends that node's anchor from
    /// where the full correction sends it.
    pub proof fn misses_are_measured_at_the_dropped_anchors(self, flags: Seq<bool>, slot: int)
        requires
            flags.len() == self.nodes.len() <= usize::MAX,
            0 <= slot < self.misses(flags).len(),
        ensures
            ({
                let dropped = crate::selection::marked(flags, false);
                let kept = crate::selection::marked(flags, true);
                let d = dropped[slot];
                let anchor = self.nodes[d as int].position;
                let (rotation, translation) = self.blended(
                    kept,
                    d,
                    self.sigma_of(kept),
                    self.time_sigma_of(kept),
                );
                &&& self.misses(flags).len() == dropped.len()
                &&& d < flags.len() && !flags[d as int]
                &&& self.misses(flags)[slot] == self.full_target(d).gap(
                    (Transform { translation, rotation }).moved(anchor),
                )
                &&& self.total_miss(flags) == crate::sequence::total(self.misses(flags))
            }),
    {
        crate::selection::marked_lists_the_flags(flags, false);
        let dropped = crate::selection::marked(flags, false);
        assert(dropped.contains(dropped[slot]));
    }

    /// Dropping nodes costs nothing where every blend gives one delta.
    proof fn one_delta_is_never_missed(self, delta: Transform<S>, flags: Seq<bool>)
        requires
            self.nodes.len() <= usize::MAX,
            blends_to_one_delta(self, delta),
            forall|i: int|
                0 <= i < self.nodes.len() ==> {
                    let target = delta.moved((#[trigger] self.nodes[i]).position);
                    target.gap(target) == S::of_count(0)
                },
            S::of_count(0).plus(S::of_count(0)) == S::of_count(0),
            flags.len() == self.nodes.len(),
            crate::selection::marked(flags, true).len() > 0,
        ensures
            self.total_miss(flags) == S::of_count(0),
    {
        let misses = self.misses(flags);
        crate::selection::marked_lists_the_flags(flags, true);
        crate::selection::marked_lists_the_flags(flags, false);
        let kept = crate::selection::marked(flags, true);
        let all = crate::selection::everyone(self.nodes.len());
        assert forall|slot: int| 0 <= slot < misses.len() implies #[trigger] misses[slot]
            == S::of_count(0) by {
            self.misses_are_measured_at_the_dropped_anchors(flags, slot);
            let d = crate::selection::marked(flags, false)[slot];
            let target = delta.moved(self.nodes[d as int].position);
            assert(self.blended(all, d, self.sigma_of(all), self.time_sigma_of(all)) == (
                delta.rotation,
                delta.translation,
            ));
            assert(self.full_target(d) == target);
        }
        zeros_total_zero(misses);
    }

    /// A warm start begins from the nodes that the seed lists: all of them take part in what
    /// is restored, what is kept is part of that, and where they fit the budget as they are,
    /// nothing is restored and no other node is kept.
    pub proof fn warm_start_begins_from_the_seed(self, max_error: S, seed: Option<Seq<u64>>)
        requires
            0 < self.nodes.len() <= usize::MAX,
        ensures
            ({
                let start = self.seeded(seed);
                let restored = self.restored(start, max_error);
                let kept = self.kept_within(max_error, seed);
                &&& within(start, restored)
                &&& within(kept, restored)
                &&& self.total_miss(start).at_most(max_error) ==> restored == start && within(
                    kept,
                    start,
                )
            }),
    {
        let start = self.seeded(seed);
        self.seeded_is_never_empty(seed);
        self.restoring_settles(start, max_error);
        let i = choose|i: int| 0 <= i < start.len() && start[i];
        assert(self.restored(start, max_error)[i]);
        self.pruning_settles(self.restored(start, max_error), max_error);
    }

    /// Nodes that carry one delta thin to a single node, within every budget that is not
    /// negative and from every seed.
    pub proof fn one_delta_thins_to_one_node(
        self,
        delta: Transform<S>,
        max_error: S,
        seed: Option<Seq<u64>>,
    )
        requires
            0 < self.nodes.len() <= usize::MAX,
            blends_to_one_delta(self, delta),
            forall|i: int|
                0 <= i < self.nodes.len() ==> {
                    let target = delta.moved((#[trigger] self.nodes[i]).position);
                    target.gap(target) == S::of_count(0)
                },
            S::of_count(0).plus(S::of_count(0)) == S::of_count(0),
            S::of_count(0).at_most(max_error),
        ensures
            self.thinned_within(max_error, seed).nodes.len() == 1,
    {
        if self.nodes.len() > 1 {
            self.thinning_stays_within_budget(max_error, seed);
            let flags = self.kept_within(max_error, seed);
            let kept = crate::selection::marked(flags, true);
            if kept.len() > 1 {
                self.cheapest_is_kept(flags);
                let trial = flags.update(self.cheapest(flags), false);
                crate::selection::marking_one(flags, self.cheapest(flags), false);
                self.one_delta_is_never_missed(delta, trial);
            }
        }
    }

    /// The place that the other kept nodes rebuild for a node does not depend on that
    /// node's own delta.
    pub proof fn rebuilding_ignores_the_own_delta(
        self,
        other: Self,
        kept: Seq<usize>,
        slot: int,
    )
        requires
            0 <= slot < kept.len(),
            kept.no_duplicates(),
            self.aligned(),
            crate::selection::in_range(kept, self.nodes.len()),
            differ_in_one_delta(self, other, kept[slot] as int),
        ensures
            other.rebuilt(kept, slot) == self.rebuilt(kept, slot),
    {
        let rest = kept.remove(slot);
        assert forall|i: int| 0 <= i < rest.len() implies self.transforms[#[trigger] rest[i] as int]
            == other.transforms[rest[i] as int] by {
            let from: int = if i < slot {
                i
            } else {
                i + 1
            };
            assert(rest[i] == kept[from]);
            assert(kept[from] != kept[slot]);
            assert(kept[from] < self.nodes.len());
        }
        assert(crate::selection::picked(self.rotations(), rest) =~= crate::selection::picked(
            other.rotations(),
            rest,
        )) by {
            assert forall|i: int| 0 <= i < rest.len() implies self.rotations()[
                #[trigger] rest[i] as int
            ] == other.rotations()[rest[i] as int] by {
                let from: int = if i < slot {
                    i
                } else {
                    i + 1
                };
                assert(rest[i] == kept[from]);
                assert(kept[from] < self.nodes.len());
            }
        }
        assert(crate::selection::picked(self.translations(), rest) =~= crate::selection::picked(
            other.translations(),
            rest,
        )) by {
            assert forall|i: int| 0 <= i < rest.len() implies self.translations()[
                #[trigger] rest[i] as int
            ] == other.translations()[rest[i] as int] by {
                let from: int = if i < slot {
                    i
                } else {
                    i + 1
                };
                assert(rest[i] == kept[from]);
                assert(kept[from] < self.nodes.len());
            }
        }
        let (sigma, time_sigma) = (self.sigma_of(kept), self.time_sigma_of(kept));
        assert(self.spreads(rest, kept[slot], sigma, time_sigma) =~= other.spreads(
            rest,
            kept[slot],
            sigma,
            time_sigma,
        ));
    }

    /// The leave-one-out error of a kept node is the distance between where its own delta,
    /// normalized, sends its anchor and where the blend of the other kept nodes sends it.
    /// The blend is that of the warp by these other nodes alone, where squaring a distance
    /// gives back the squared distance and two or more of them are left.
    pub proof fn redundancy_is_how_far_the_others_miss(self, kept: Seq<usize>, slot: int)
        requires
            0 <= slot < kept.len(),
            self.aligned(),
            crate::selection::in_range(kept, self.nodes.len()),
        ensures
            ({
                let node = kept[slot];
                let anchor = self.nodes[node as int].position;
                let time = Some(self.nodes[node as int].ts);
                let own = Transform {
                    translation: self.transforms[node as int].translation,
                    rotation: self.transforms[node as int].rotation.unit_or_no_turn(),
                };
                let others = kept.take(slot) + kept.skip(slot + 1);
                let (sigma, time_sigma) = (self.sigma_of(kept), self.time_sigma_of(kept));
                let (rotation, translation) = self.blended(others, node, sigma, time_sigma);
                let (warp_rotation, warp_translation) = self.blend_of(
                    others,
                    sigma,
                    time_sigma,
                ).at(anchor, time);
                &&& self.redundancies(kept).len() == kept.len()
                &&& self.redundancies(kept)[slot] == own.moved(anchor).gap(
                    (Transform { translation, rotation }).moved(anchor),
                )
                &&& others.len() > 1 && (forall|i: int|
                    0 <= i < others.len() ==> {
                        let other = self.nodes[#[trigger] others[i] as int].position;
                        anchor.gap(other).times(anchor.gap(other)) == anchor.gap_squared(other)
                    }) ==> self.redundancies(kept)[slot] == own.moved(anchor).gap(
                    (Transform {
                        translation: warp_translation,
                        rotation: warp_rotation,
                    }).moved(anchor),
                )
            }),
    {
        let node = kept[slot];
        let anchor = self.nodes[node as int].position;
        let others = kept.take(slot) + kept.skip(slot + 1);
        assert(others =~= kept.remove(slot));
        assert(node < self.transforms.len());
        let (sigma, time_sigma) = (self.sigma_of(kept), self.time_sigma_of(kept));
        if others.len() > 1 && (forall|i: int|
            0 <= i < others.len() ==> {
                let other = self.nodes[#[trigger] others[i] as int].position;
                anchor.gap(other).times(anchor.gap(other)) == anchor.gap_squared(other)
            }) {
            assert forall|i: int| 0 <= i < others.len() implies {
                let other = self.positions()[#[trigger] others[i] as int];
                anchor.gap(other).times(anchor.gap(other)) == anchor.gap_squared(other)
            } by {
                let from: int = if i < slot {
                    i
                } else {
                    i + 1
                };
                assert(others[i] == kept[from]);
                assert(kept[from] < self.nodes.len());
            }
            self.thinning_blends_as_the_warp_does(others, node, sigma, time_sigma);
        }
    }
}

/// Zeros add up to zero, where two of them do.
proof fn zeros_total_zero<S: Scalar>(terms: Seq<S>)
    requires
        S::of_count(0).plus(S::of_count(0)) == S::of_count(0),
        forall|i: int| 0 <= i < terms.len() ==> #[trigger] terms[i] == S::of_count(0),
    ensures
        crate::sequence::total(terms) == S::of_count(0),
    decreases terms.len(),
{
    if terms.len() > 0 {
        let front = terms.drop_last();
        assert forall|i: int| 0 <= i < front.len() implies #[trigger] front[i]
            == S::of_count(0) by {
            assert(front[i] == terms[i]);
        }
        zeros_total_zero(front);
        assert(terms.last() == S::of_count(0));
    }
}

/// Fewer flags list fewer indices.
proof fn fewer_flags_list_fewer(fewer: Seq<bool>, more: Seq<bool>)
    requires
        within(fewer, more),
    ensures
        crate::selection::marked(fewer, true).len() <= crate::selection::marked(more, true).len(),
{
    fewer_below(fewer, more, fewer.len());
}

proof fn fewer_below(fewer: Seq<bool>, more: Seq<bool>, n: nat)
    requires
        within(fewer, more),
        n <= fewer.len(),
    ensures
        crate::selection::marked_below(fewer, true, n).len() <= crate::selection::marked_below(
            more,
            true,
            n,
        ).len(),
    decreases n,
{
    if n > 0 {
        fewer_below(fewer, more, (n - 1) as nat);
    }
}

} // verus!
