//! Node-delta sparsification: thin a dense pose-graph correction down to a target
//! number of nodes while preserving the warp it induces.
//!
//! Real pose graphs can have far more keyframes than the warp actually needs —
//! neighboring nodes often carry nearly the same delta, so the space+time blend
//! would reconstruct a dropped node's correction from its neighbors anyway. This
//! removes that redundancy with **greedy leave-one-out decimation**: repeatedly
//! drop the single node whose own delta is best predicted by blending the ones
//! that remain (the most redundant node), until only `target_nodes` are left.
//!
//! Nodes are treated as an unordered set (no trajectory assumed), so this also
//! works for multi-robot graphs where the keyframes have no single sequence.

use crate::graph::{
    space_bandwidth, time_bandwidth, Blend, Correction, GraphDelta3D, Transform,
};
use crate::math::{distance, Quat, Vec3};
use crate::scalar::{Arith, Scalar};
use crate::selection::{all_indices, leave_out, list_marked, pick};
use crate::sequence::{highest_slot, lowest_slot};
use crate::warp::{mix, weigh};
use std::collections::HashSet;
use vstd::prelude::*;
use vstd::slice::slice_to_vec;

verus! {

/// A configured bandwidth when it is positive, else one picked from the spacing of
/// `points`, else (fewer than two points) a millionth.
pub open spec fn resolved<P, A: Arith>(
    configured: A,
    points: Seq<P>,
    metric: spec_fn(P, P) -> A,
) -> A {
    if A::of_count(0).below(configured) {
        configured
    } else if points.len() < 2 {
        A::of_ratio(1, 1_000_000)
    } else {
        crate::graph::widened_gap(crate::graph::mean_gap(points, metric))
    }
}

/// The position that a search found, or the first.
pub open spec fn slot_or_first(slot: Option<nat>) -> int {
    match slot {
        Some(k) => k as int,
        None => 0,
    }
}

impl<A: Arith> Correction<A> {
    /// The spatial bandwidth that a set of members blends with.
    pub open spec fn sigma_of(self, members: Seq<usize>) -> A {
        resolved(
            self.blend_sigma,
            crate::selection::picked(self.positions(), members),
            crate::graph::space_metric(),
        )
    }

    /// The temporal bandwidth that a set of members blends with.
    pub open spec fn time_sigma_of(self, members: Seq<usize>) -> A {
        resolved(
            self.blend_time_sigma,
            crate::selection::picked(self.times(), members),
            crate::graph::time_metric(),
        )
    }

    /// How far the anchor of node `index` is from a member, in units of the given
    /// bandwidths.
    pub open spec fn spread(self, member: usize, index: usize, sigma: A, time_sigma: A) -> A {
        let separation = self.positions()[index as int].gap(self.positions()[member as int]);
        let dt = self.times()[index as int].minus(self.times()[member as int]);
        separation.times(separation).times(crate::warp::falloff(sigma)).plus(
            dt.times(dt).times(crate::warp::falloff(time_sigma)),
        )
    }

    pub open spec fn spreads(
        self,
        members: Seq<usize>,
        index: usize,
        sigma: A,
        time_sigma: A,
    ) -> Seq<A> {
        members.map_values(|member: usize| self.spread(member, index, sigma, time_sigma))
    }

    /// The blend of the deltas of `members` at the anchor and time of node `index`, under
    /// given weights.
    pub open spec fn blended_under(
        self,
        members: Seq<usize>,
        index: usize,
        sigma: A,
        time_sigma: A,
        weights: Seq<A>,
    ) -> (Quat<A>, Vec3<A>) {
        crate::warp::mixed(
            crate::selection::picked(self.rotations(), members),
            crate::selection::picked(self.translations(), members),
            self.spreads(members, index, sigma, time_sigma),
            weights,
        )
    }

    /// The blend form of some members alone, in their order and with given bandwidths.
    pub open spec fn blend_of(self, members: Seq<usize>, sigma: A, time_sigma: A) -> Blend<A> {
        Blend {
            positions: crate::selection::picked(self.positions(), members),
            times: crate::selection::picked(self.times(), members),
            rotations: crate::selection::picked(self.rotations(), members),
            translations: crate::selection::picked(self.translations(), members),
            sigma,
            time_sigma,
        }
    }

    /// The correction that consists of the given nodes, with normalized rotations.
    pub open spec fn only(self, kept: Seq<usize>) -> Self {
        Correction {
            nodes: crate::selection::picked(self.nodes, kept),
            transforms: kept.map_values(
                |k: usize|
                    Transform {
                        translation: self.transforms[k as int].translation,
                        rotation: self.transforms[k as int].rotation.unit_or_no_turn(),
                    },
            ),
            ..self
        }
    }
}

impl<S: Scalar> Correction<S> {
    /// All node indices.
    pub open spec fn all(self) -> Seq<usize> {
        crate::selection::everyone(self.nodes.len())
    }

    /// The blend of the deltas of `members` at the anchor and time of node `index`.
    pub open spec fn blended(
        self,
        members: Seq<usize>,
        index: usize,
        sigma: S,
        time_sigma: S,
    ) -> (Quat<S>, Vec3<S>) {
        self.blended_under(
            members,
            index,
            sigma,
            time_sigma,
            crate::warp::gaussians(self.spreads(members, index, sigma, time_sigma)),
        )
    }

    /// Where the blend of `members` sends the anchor of node `index`.
    pub open spec fn deformed(
        self,
        members: Seq<usize>,
        index: usize,
        sigma: S,
        time_sigma: S,
    ) -> Vec3<S> {
        let (rotation, translation) = self.blended(members, index, sigma, time_sigma);
        (Transform { translation, rotation }).moved(self.positions()[index as int])
    }

    /// Where the blend of all `members` but the one in `slot` sends that member's
    /// anchor, with the bandwidths of all of them.
    pub open spec fn rebuilt(self, members: Seq<usize>, slot: int) -> Vec3<S> {
        self.deformed(
            members.remove(slot),
            members[slot],
            self.sigma_of(members),
            self.time_sigma_of(members),
        )
    }

    /// Where node `index`'s own delta sends its anchor.
    pub open spec fn own_target(self, index: usize) -> Vec3<S> {
        (Transform {
            translation: self.translations()[index as int],
            rotation: self.rotations()[index as int],
        }).moved(self.positions()[index as int])
    }

    /// How far each kept node's anchor is missed when the others rebuild its delta.
    pub open spec fn redundancies(self, kept: Seq<usize>) -> Seq<S> {
        Seq::new(kept.len(), |slot: int| self.own_target(kept[slot]).gap(self.rebuilt(kept, slot)))
    }

    /// The slot of the most redundant kept node.
    pub open spec fn most_redundant(self, kept: Seq<usize>) -> int {
        slot_or_first(crate::sequence::lowest(self.redundancies(kept)))
    }

    /// What is left of `kept` after dropping the most redundant node, one at a time,
    /// until at most `target` remain.
    pub open spec fn decimated(self, kept: Seq<usize>, target: nat) -> Seq<usize>
        decreases kept.len(),
    {
        if kept.len() <= target {
            kept
        } else {
            proof {
                crate::sequence::lowest_in_range(self.redundancies(kept));
            }
            self.decimated(kept.remove(self.most_redundant(kept)), target)
        }
    }

    /// The correction thinned to at most `target` nodes.
    pub open spec fn thinned_to(self, target: nat) -> Self {
        if self.nodes.len() <= target {
            self
        } else {
            self.only(self.decimated(self.all(), target))
        }
    }

    /// Where the full correction sends the anchor of node `index`.
    pub open spec fn full_target(self, index: usize) -> Vec3<S> {
        self.deformed(
            self.all(),
            index,
            self.sigma_of(self.all()),
            self.time_sigma_of(self.all()),
        )
    }

    /// How far the blend of the flagged nodes misses the full deformation at each
    /// dropped node's anchor.
    pub open spec fn misses(self, flags: Seq<bool>) -> Seq<S> {
        let kept = crate::selection::marked(flags, true);
        crate::selection::marked(flags, false).map_values(
            |d: usize|
                self.full_target(d).gap(
                    self.deformed(kept, d, self.sigma_of(kept), self.time_sigma_of(kept)),
                ),
        )
    }

    /// The summed miss over the dropped nodes.
    pub open spec fn total_miss(self, flags: Seq<bool>) -> S {
        crate::sequence::total(self.misses(flags))
    }

    /// The flags that a warm start begins with: the nodes whose id is in the seed, or
    /// all of them where there is no seed or it matches nothing.
    pub open spec fn seeded(self, seed: Option<Seq<u64>>) -> Seq<bool> {
        let whole = Seq::new(self.nodes.len(), |i: int| true);
        match seed {
            None => whole,
            Some(ids) => {
                let flags = Seq::new(self.nodes.len(), |i: int| ids.contains(self.nodes[i].id));
                if flags.contains(true) {
                    flags
                } else {
                    whole
                }
            },
        }
    }

    /// The flags after adding back the worst-missed dropped node, one at a time,
    /// until the summed miss fits `max_error` or nothing is left to add.
    pub open spec fn restored(self, flags: Seq<bool>, max_error: S) -> Seq<bool>
        decreases crate::selection::marked(flags, false).len(),
        when flags.len() <= usize::MAX
    {
        if self.total_miss(flags).at_most(max_error) {
            flags
        } else {
            match crate::sequence::highest(self.misses(flags)) {
                Some(k) => {
                    let d = crate::selection::marked(flags, false)[k as int] as int;
                    proof {
                        crate::sequence::highest_in_range(self.misses(flags));
                        crate::selection::marked_lists_the_flags(flags, false);
                        assert(crate::selection::marked(flags, false).contains(
                            crate::selection::marked(flags, false)[k as int],
                        ));
                        crate::selection::marking_one(flags, d, true);
                    }
                    self.restored(flags.update(d, true), max_error)
                },
                None => flags,
            }
        }
    }

    /// The summed miss that dropping each kept node as well would leave.
    pub open spec fn prices(self, flags: Seq<bool>) -> Seq<S> {
        let kept = crate::selection::marked(flags, true);
        Seq::new(
            kept.len(),
            |slot: int| self.total_miss(flags.update(kept[slot] as int, false)),
        )
    }

    /// The node that is cheapest to drop: the one whose drop leaves the least summed miss.
    pub open spec fn cheapest(self, flags: Seq<bool>) -> int {
        let kept = crate::selection::marked(flags, true);
        kept[slot_or_first(crate::sequence::lowest(self.prices(flags)))] as int
    }

    /// The flags after dropping the cheapest node, one at a time, while the summed
    /// miss stays within `max_error` and more than one node is left.
    pub open spec fn pruned(self, flags: Seq<bool>, max_error: S) -> Seq<bool>
        decreases crate::selection::marked(flags, true).len(),
        when flags.len() <= usize::MAX
    {
        let kept = crate::selection::marked(flags, true);
        let trial = flags.update(self.cheapest(flags), false);
        if kept.len() > 1 && self.total_miss(trial).at_most(max_error) {
            proof {
                self.cheapest_is_kept(flags);
                crate::selection::marking_one(flags, self.cheapest(flags), false);
            }
            self.pruned(trial, max_error)
        } else {
            flags
        }
    }

    /// The flags of the nodes that a thinning within `max_error` keeps.
    pub open spec fn kept_within(self, max_error: S, seed: Option<Seq<u64>>) -> Seq<bool> {
        self.pruned(self.restored(self.seeded(seed), max_error), max_error)
    }

    /// The correction thinned within `max_error`.
    pub open spec fn thinned_within(self, max_error: S, seed: Option<Seq<u64>>) -> Self {
        if self.nodes.len() <= 1 {
            self
        } else {
            self.only(crate::selection::marked(self.kept_within(max_error, seed), true))
        }
    }

    /// The cheapest node is one of the kept ones.
    pub proof fn cheapest_is_kept(self, flags: Seq<bool>)
        requires
            flags.len() <= usize::MAX,
            crate::selection::marked(flags, true).len() > 0,
        ensures
            0 <= self.cheapest(flags) < flags.len(),
            flags[self.cheapest(flags)],
    {
        let kept = crate::selection::marked(flags, true);
        crate::sequence::lowest_in_range(self.prices(flags));
        crate::selection::marked_lists_the_flags(flags, true);
        let slot = slot_or_first(crate::sequence::lowest(self.prices(flags)));
        assert(kept.contains(kept[slot]));
    }
}

/// The node arrays a sparsification pass reads: parallel per-node data plus the
/// (possibly auto) blend bandwidths carried from the source `GraphDelta3D`.
struct NodeArrays<S> {
    positions: Vec<Vec3<S>>,
    times: Vec<S>,
    rotations: Vec<Quat<S>>,
    translations: Vec<Vec3<S>>,
    blend_sigma: S,
    blend_time_sigma: S,
}

impl<S: Scalar> NodeArrays<S> {
    /// The arrays are those of `source`, which has a delta for every node.
    spec fn describes(self, source: Correction<S>) -> bool {
        &&& source.aligned()
        &&& self.positions@ == source.positions()
        &&& self.times@ == source.times()
        &&& self.rotations@ == source.rotations()
        &&& self.translations@ == source.translations()
        &&& self.blend_sigma == source.blend_sigma
        &&& self.blend_time_sigma == source.blend_time_sigma
    }

    fn from_delta(graph_delta: &GraphDelta3D<S>) -> (r: Self)
        requires
            graph_delta@.aligned(),
        ensures
            r.describes(graph_delta@),
    {
        NodeArrays {
            positions: graph_delta.gather_positions(),
            times: graph_delta.gather_times(),
            rotations: graph_delta.gather_rotations(),
            translations: graph_delta.gather_translations(),
            blend_sigma: graph_delta.blend_sigma,
            blend_time_sigma: graph_delta.blend_time_sigma,
        }
    }

    /// Resolve the space + time bandwidths for a given member subset (auto-picks
    /// from spacing when the source configured `<= 0`), so the blend an error is
    /// measured with matches the blend the sparser graph will use.
    fn sigmas(&self, members: &[usize], Ghost(source): Ghost<Correction<S>>) -> (r: (S, S))
        requires
            self.describes(source),
            crate::selection::in_range(members@, source.nodes.len()),
        ensures
            r.0 == source.sigma_of(members@),
            r.1 == source.time_sigma_of(members@),
    {
        let positions = pick(self.positions.as_slice(), members);
        let times = pick(self.times.as_slice(), members);
        let zero = S::from_count(0);
        if members.len() < 2 {
            let floor = S::from_ratio(1, 1_000_000);
            let sigma = if zero.lt(self.blend_sigma) {
                self.blend_sigma
            } else {
                floor
            };
            let time_sigma = if zero.lt(self.blend_time_sigma) {
                self.blend_time_sigma
            } else {
                floor
            };
            (sigma, time_sigma)
        } else {
            let sigma = space_bandwidth(self.blend_sigma, positions.as_slice());
            let time_sigma = time_bandwidth(self.blend_time_sigma, times.as_slice());
            (sigma, time_sigma)
        }
    }

    /// The space+time proximity blend of the member deltas at node `index`'s anchor
    /// and time. Same weighting and sign-aligned quaternion average the warp uses,
    /// evaluated over a subset.
    fn blend_members(
        &self,
        members: &[usize],
        index: usize,
        sigma: S,
        time_sigma: S,
        Ghost(source): Ghost<Correction<S>>,
    ) -> (r: (Quat<S>, Vec3<S>))
        requires
            self.describes(source),
            members@.len() > 0,
            crate::selection::in_range(members@, source.nodes.len()),
            index < source.nodes.len(),
        ensures
            r == source.blended(members@, index, sigma, time_sigma),
    {
        let one = S::from_count(1);
        let two = S::from_count(2);
        let inverse_two_sigma_squared = one.div(two.mul(sigma).mul(sigma));
        let inverse_two_time_sigma_squared = one.div(two.mul(time_sigma).mul(time_sigma));
        let point = self.positions[index];
        let time = self.times[index];
        let mut spreads: Vec<S> = Vec::new();
        for slot in 0..members.len()
            invariant
                self.describes(source),
                crate::selection::in_range(members@, source.nodes.len()),
                index < source.nodes.len(),
                point == source.positions()[index as int],
                time == source.times()[index as int],
                inverse_two_sigma_squared == crate::warp::falloff(sigma),
                inverse_two_time_sigma_squared == crate::warp::falloff(time_sigma),
                spreads@ == source.spreads(members@, index, sigma, time_sigma).take(slot as int),
        {
            let node = members[slot];
            assert(members@[slot as int] < source.nodes.len());
            let separation = distance(point, self.positions[node]);
            let dt = time.sub(self.times[node]);
            let exponent = separation.mul(separation).mul(inverse_two_sigma_squared).add(
                dt.mul(dt).mul(inverse_two_time_sigma_squared),
            );
            spreads.push(exponent);
            assert(spreads@ == source.spreads(members@, index, sigma, time_sigma).take(slot + 1));
        }
        assert(spreads@ == source.spreads(members@, index, sigma, time_sigma));
        let rotations = pick(self.rotations.as_slice(), members);
        let translations = pick(self.translations.as_slice(), members);
        let weights = weigh(spreads.as_slice());
        mix(
            rotations.as_slice(),
            translations.as_slice(),
            spreads.as_slice(),
            weights.as_slice(),
        )
    }

    /// Where the blend of `members` sends the anchor at node `index`.
    fn deform(
        &self,
        members: &[usize],
        index: usize,
        sigma: S,
        time_sigma: S,
        Ghost(source): Ghost<Correction<S>>,
    ) -> (r: Vec3<S>)
        requires
            self.describes(source),
            members@.len() > 0,
            crate::selection::in_range(members@, source.nodes.len()),
            index < source.nodes.len(),
        ensures
            r == source.deformed(members@, index, sigma, time_sigma),
    {
        let (rotation, translation) = self.blend_members(
            members,
            index,
            sigma,
            time_sigma,
            Ghost(source),
        );
        (Transform { translation, rotation }).apply(self.positions[index])
    }

    /// How far off the remaining nodes are when they try to reconstruct `target`, the
    /// place that the node in `skip_slot` is meant to send its anchor to. Small error
    /// means that the node is redundant and safe to drop.
    fn leave_one_out_error(
        &self,
        skip_slot: usize,
        kept: &[usize],
        target: Vec3<S>,
        sigma: S,
        time_sigma: S,
        Ghost(source): Ghost<Correction<S>>,
    ) -> (r: S)
        requires
            self.describes(source),
            crate::selection::in_range(kept@, source.nodes.len()),
            crate::selection::ascending(kept@),
            skip_slot < kept@.len(),
            kept@.len() > 1,
            sigma == source.sigma_of(kept@),
            time_sigma == source.time_sigma_of(kept@),
        ensures
            r == target.gap(source.rebuilt(kept@, skip_slot as int)),
    {
        proof {
            crate::selection::removal_keeps_order(kept@, skip_slot as int, source.nodes.len());
            assert(kept@[skip_slot as int] < source.nodes.len());
        }
        let members = leave_out(kept, skip_slot);
        let reconstructed = self.deform(
            members.as_slice(),
            kept[skip_slot],
            sigma,
            time_sigma,
            Ghost(source),
        );
        distance(target, reconstructed)
    }

    /// Where node `index`'s own delta sends its anchor.
    fn own(&self, index: usize, Ghost(source): Ghost<Correction<S>>) -> (r: Vec3<S>)
        requires
            self.describes(source),
            index < source.nodes.len(),
        ensures
            r == source.own_target(index),
    {
        (Transform {
            translation: self.translations[index],
            rotation: self.rotations[index],
        }).apply(self.positions[index])
    }

    /// How far each kept node's anchor is missed when the others rebuild its delta.
    fn leave_one_out_errors(&self, kept: &[usize], Ghost(source): Ghost<Correction<S>>) -> (r: Vec<
        S,
    >)
        requires
            self.describes(source),
            crate::selection::in_range(kept@, source.nodes.len()),
            crate::selection::ascending(kept@),
            kept@.len() > 1,
        ensures
            r@ == source.redundancies(kept@),
    {
        let (sigma, time_sigma) = self.sigmas(kept, Ghost(source));
        let mut errors: Vec<S> = Vec::new();
        for slot in 0..kept.len()
            invariant
                self.describes(source),
                crate::selection::in_range(kept@, source.nodes.len()),
                crate::selection::ascending(kept@),
                kept@.len() > 1,
                sigma == source.sigma_of(kept@),
                time_sigma == source.time_sigma_of(kept@),
                errors@ == source.redundancies(kept@).take(slot as int),
        {
            assert(kept@[slot as int] < source.nodes.len());
            let target = self.own(kept[slot], Ghost(source));
            errors.push(
                self.leave_one_out_error(slot, kept, target, sigma, time_sigma, Ghost(source)),
            );
            assert(errors@ == source.redundancies(kept@).take(slot + 1));
        }
        assert(errors@ == source.redundancies(kept@));
        errors
    }

    /// The full-graph deformation at each node anchor, computed once with the
    /// full-set bandwidths: what every kept subset is scored against.
    fn full_targets(&self, count: usize, Ghost(source): Ghost<Correction<S>>) -> (r: Vec<Vec3<S>>)
        requires
            self.describes(source),
            count == source.nodes.len(),
            count > 0,
        ensures
            r@.len() == count,
            forall|i: int| 0 <= i < count ==> #[trigger] r@[i] == source.full_target(i as usize),
    {
        let all = all_indices(count);
        let (sigma, time_sigma) = self.sigmas(all.as_slice(), Ghost(source));
        let mut targets: Vec<Vec3<S>> = Vec::new();
        for index in 0..count
            invariant
                self.describes(source),
                count == source.nodes.len(),
                all@ == source.all(),
                sigma == source.sigma_of(all@),
                time_sigma == source.time_sigma_of(all@),
                targets@.len() == index,
                forall|i: int|
                    0 <= i < index ==> #[trigger] targets@[i] == source.full_target(i as usize),
        {
            targets.push(self.deform(all.as_slice(), index, sigma, time_sigma, Ghost(source)));
        }
        targets
    }

    /// How far the blend of the flagged nodes misses the full deformation at each
    /// dropped node's anchor.
    fn dropped_errors(
        &self,
        in_kept: &[bool],
        full_targets: &[Vec3<S>],
        Ghost(source): Ghost<Correction<S>>,
    ) -> (r: Vec<S>)
        requires
            self.describes(source),
            in_kept@.len() == source.nodes.len() == full_targets@.len(),
            in_kept@.contains(true),
            forall|i: int|
                0 <= i < in_kept@.len() ==> #[trigger] full_targets@[i] == source.full_target(
                    i as usize,
                ),
        ensures
            r@ == source.misses(in_kept@),
    {
        let kept = list_marked(in_kept, true);
        let dropped = list_marked(in_kept, false);
        proof {
            assert(in_kept.len() == in_kept@.len());
            crate::selection::marked_lists_the_flags(in_kept@, true);
            crate::selection::marked_lists_the_flags(in_kept@, false);
            let i = choose|i: int| 0 <= i < in_kept@.len() && in_kept@[i];
            assert(kept@.contains(i as usize));
        }
        let (sigma, time_sigma) = self.sigmas(kept.as_slice(), Ghost(source));
        let mut errors: Vec<S> = Vec::new();
        for slot in 0..dropped.len()
            invariant
                self.describes(source),
                in_kept@.len() == source.nodes.len() == full_targets@.len(),
                forall|i: int|
                    0 <= i < in_kept@.len() ==> #[trigger] full_targets@[i] == source.full_target(
                        i as usize,
                    ),
                kept@ == crate::selection::marked(in_kept@, true),
                dropped@ == crate::selection::marked(in_kept@, false),
                crate::selection::in_range(kept@, source.nodes.len()),
                crate::selection::in_range(dropped@, source.nodes.len()),
                kept@.len() > 0,
                sigma == source.sigma_of(kept@),
                time_sigma == source.time_sigma_of(kept@),
                errors@ == source.misses(in_kept@).take(slot as int),
        {
            let d = dropped[slot];
            assert(dropped@[slot as int] < source.nodes.len());
            assert(full_targets@[d as int] == source.full_target(d));
            let sent = self.deform(kept.as_slice(), d, sigma, time_sigma, Ghost(source));
            errors.push(distance(full_targets[d], sent));
            assert(errors@ == source.misses(in_kept@).take(slot + 1));
        }
        assert(errors@ == source.misses(in_kept@));
        errors
    }

    /// The summed miss that dropping each kept node as well would leave.
    fn removal_totals(
        &self,
        in_kept: &[bool],
        kept: &[usize],
        full_targets: &[Vec3<S>],
        Ghost(source): Ghost<Correction<S>>,
    ) -> (r: Vec<S>)
        requires
            self.describes(source),
            in_kept@.len() == source.nodes.len() == full_targets@.len(),
            kept@ == crate::selection::marked(in_kept@, true),
            kept@.len() > 1,
            forall|i: int|
                0 <= i < in_kept@.len() ==> #[trigger] full_targets@[i] == source.full_target(
                    i as usize,
                ),
        ensures
            r@ == source.prices(in_kept@),
    {
        proof {
            assert(in_kept.len() == in_kept@.len());
            crate::selection::marked_lists_the_flags(in_kept@, true);
        }
        let mut flags = slice_to_vec(in_kept);
        let mut totals: Vec<S> = Vec::new();
        for slot in 0..kept.len()
            invariant
                self.describes(source),
                in_kept@.len() == source.nodes.len() == full_targets@.len(),
                kept@ == crate::selection::marked(in_kept@, true),
                kept@.len() > 1,
                crate::selection::in_range(kept@, in_kept@.len()),
                crate::selection::ascending(kept@),
                forall|k: usize| #[trigger]
                    kept@.contains(k) <==> k < in_kept@.len() && in_kept@[k as int],
                forall|i: int|
                    0 <= i < in_kept@.len() ==> #[trigger] full_targets@[i] == source.full_target(
                        i as usize,
                    ),
                flags@ == in_kept@,
                totals@ == source.prices(in_kept@).take(slot as int),
        {
            let node = kept[slot];
            assert(kept@[slot as int] < in_kept@.len());
            assert(kept@.contains(node));
            flags.set(node, false);
            proof {
                // One of the other kept nodes is still flagged.
                let rest: int = if slot == 0 {
                    1
                } else {
                    0
                };
                assert(kept@.contains(kept@[rest]));
                assert(kept@[rest] != node);
                assert(flags@[kept@[rest] as int]);
            }
            let errors = self.dropped_errors(flags.as_slice(), full_targets, Ghost(source));
            totals.push(crate::sequence::sum(errors.as_slice()));
            flags.set(node, true);
            assert(flags@ =~= in_kept@);
            assert(totals@ =~= source.prices(in_kept@).take(slot + 1));
        }
        assert(totals@ =~= source.prices(in_kept@));
        totals
    }
}

/// Assemble a `GraphDelta3D` from the kept member indices, preserving node ids and
/// carrying the source bandwidths through.
fn build_delta<S: Scalar>(source: &GraphDelta3D<S>, kept: &[usize]) -> (r: GraphDelta3D<S>)
    requires
        crate::selection::in_range(kept@, source@.nodes.len()),
        crate::selection::in_range(kept@, source@.transforms.len()),
    ensures
        r@ == source@.only(kept@),
{
    let nodes = pick(source.nodes.as_slice(), kept);
    let mut transforms: Vec<Transform<S>> = Vec::new();
    for i in 0..kept.len()
        invariant
            crate::selection::in_range(kept@, source@.transforms.len()),
            transforms@ == source@.only(kept@).transforms.take(i as int),
    {
        assert(kept@[i as int] < source@.transforms.len());
        let own = source.transforms[kept[i]];
        transforms.push(
            Transform {
                translation: own.translation,
                rotation: own.rotation.normalized_or_identity(),
            },
        );
        assert(transforms@ == source@.only(kept@).transforms.take(i + 1));
    }
    assert(transforms@ == source@.only(kept@).transforms);
    GraphDelta3D {
        nodes,
        transforms,
        blend_sigma: source.blend_sigma,
        blend_time_sigma: source.blend_time_sigma,
    }
}

/// Return a copy of `graph_delta` thinned to at most `target_nodes` nodes.
///
/// Greedily drops the most redundant node, the one its neighbors reconstruct best;
/// `target_nodes >= node count` (or an empty graph) is a pass-through. Both blend
/// bandwidths are carried through unchanged.
pub fn sparsify<S: Scalar>(graph_delta: &GraphDelta3D<S>, target_nodes: usize) -> (r: GraphDelta3D<
    S,
>)
    requires
        0 < target_nodes < graph_delta@.nodes.len() ==> graph_delta@.aligned(),
    ensures
        r@ == graph_delta@.thinned_to(target_nodes as nat),
        r@.nodes.len() <= target_nodes,
{
    let count = graph_delta.len();
    let target = target_nodes;
    if count <= target {
        return graph_delta.duplicate();
    }
    let ghost source = graph_delta@;
    proof {
        source.decimation_meets_its_target(source.all(), target as nat);
    }
    if target == 0 {
        let none: Vec<usize> = Vec::new();
        assert(none@ == source.decimated(source.all(), 0));
        return build_delta(graph_delta, none.as_slice());
    }
    let arrays = NodeArrays::from_delta(graph_delta);
    let mut kept = all_indices(count);
    while kept.len() > target
        invariant
            target >= 1,
            source == graph_delta@,
            arrays.describes(source),
            crate::selection::in_range(kept@, source.nodes.len()),
            crate::selection::ascending(kept@),
            source.decimated(kept@, target as nat) == source.decimated(
                source.all(),
                target as nat,
            ),
        decreases kept@.len(),
    {
        let errors = arrays.leave_one_out_errors(kept.as_slice(), Ghost(source));
        let most_redundant = match lowest_slot(errors.as_slice()) {
            Some(slot) => slot,
            None => 0,
        };
        proof {
            crate::selection::removal_keeps_order(
                kept@,
                most_redundant as int,
                source.nodes.len(),
            );
        }
        let _ = kept.remove(most_redundant);
    }
    build_delta(graph_delta, kept.as_slice())
}

/// The flags that a warm start begins with.
fn seed_flags<S: Scalar>(graph_delta: &GraphDelta3D<S>, seed_ids: Option<&[u64]>) -> (r: Vec<bool>)
    requires
        graph_delta@.nodes.len() > 0,
    ensures
        r@ == graph_delta@.seeded(crate::warp::slice_contents(seed_ids)),
        r@.contains(true),
{
    broadcast use vstd::std_specs::hash::group_hash_axioms;

    let count = graph_delta.len();
    let ghost source = graph_delta@;
    if let Some(seed) = seed_ids {
        let mut wanted: HashSet<u64> = HashSet::new();
        for i in 0..seed.len()
            invariant
                forall|id: u64| #[trigger]
                    wanted@.contains(id) <==> seed@.take(i as int).contains(id),
        {
            let ghost before = seed@.take(i as int);
            let _ = wanted.insert(seed[i]);
            assert(seed@.take(i + 1) == before.push(seed@[i as int]));
            assert forall|id: u64| #[trigger] wanted@.contains(id) <==> seed@.take(
                i + 1,
            ).contains(id) by {
                vstd::seq_lib::lemma_seq_contains_after_push(before, seed@[i as int], id);
            }
        }
        assert(seed@.take(seed@.len() as int) == seed@);
        let mut in_kept: Vec<bool> = Vec::new();
        let mut any = false;
        let ghost flags = Seq::new(source.nodes.len(), |i: int| seed@.contains(source.nodes[i].id));
        for index in 0..count
            invariant
                count == source.nodes.len(),
                source == graph_delta@,
                flags == Seq::new(
                    source.nodes.len(),
                    |i: int| seed@.contains(source.nodes[i].id),
                ),
                forall|id: u64| #[trigger] wanted@.contains(id) <==> seed@.contains(id),
                in_kept@ == flags.take(index as int),
                any == in_kept@.contains(true),
        {
            let flag = wanted.contains(&graph_delta.nodes[index].id);
            let ghost before = in_kept@;
            in_kept.push(flag);
            any = any || flag;
            assert(in_kept@ == flags.take(index + 1));
            proof {
                vstd::seq_lib::lemma_seq_contains_after_push(before, flag, true);
            }
        }
        assert(flags.take(count as int) == flags);
        if any {
            return in_kept;
        }
    }
    let mut whole: Vec<bool> = Vec::new();
    for index in 0..count
        invariant
            whole@ == Seq::new(index as nat, |i: int| true),
    {
        whole.push(true);
        assert(whole@ == Seq::new((index + 1) as nat, |i: int| true));
    }
    assert(whole@[0]);
    whole
}

/// Thin `graph_delta` as far as possible while the total reconstruction error of
/// the kept correction stays within `max_error`, measured against the **full**
/// correction at the original node anchors (not just the shrinking kept set — so
/// the budget bounds drift from the true deformation, not from an intermediate
/// one). Error is the summed anchor displacement between the full and thinned
/// deformations over the dropped nodes.
///
/// `seed_ids`, when `Some`, **warm-starts** from a previously kept selection
/// (matched by node id): the pass begins from that subset instead of the full
/// graph, adds nodes back if the seed is over budget, then keeps dropping while
/// under budget. Re-thinning an updated pose graph you have thinned before is
/// then cheap — it starts near the answer instead of from every node. Each drop is the
/// one that leaves the least total error, so the pass ends where no single further
/// drop fits the budget.
pub fn sparsify_within_error<S: Scalar>(
    graph_delta: &GraphDelta3D<S>,
    max_error: S,
    seed_ids: Option<&[u64]>,
) -> (r: GraphDelta3D<S>)
    requires
        graph_delta@.nodes.len() > 1 ==> graph_delta@.aligned(),
    ensures
        r@ == graph_delta@.thinned_within(max_error, crate::warp::slice_contents(seed_ids)),
{
    let count = graph_delta.len();
    if count <= 1 {
        return graph_delta.duplicate();
    }
    let ghost source = graph_delta@;
    let ghost seed = crate::warp::slice_contents(seed_ids);
    let arrays = NodeArrays::from_delta(graph_delta);
    let full_targets = arrays.full_targets(count, Ghost(source));
    let mut in_kept = seed_flags(graph_delta, seed_ids);

    // If the warm-start seed is already over budget, add back the worst-missed
    // dropped node until it fits (or nothing is left to restore).
    let mut restoring = true;
    while restoring
        invariant
            count == source.nodes.len() == in_kept@.len() == full_targets@.len(),
            in_kept@.contains(true),
            arrays.describes(source),
            forall|i: int|
                0 <= i < count ==> #[trigger] full_targets@[i] == source.full_target(i as usize),
            restoring ==> source.restored(in_kept@, max_error) == source.restored(
                source.seeded(seed),
                max_error,
            ),
            !restoring ==> in_kept@ == source.restored(source.seeded(seed), max_error),
        decreases
            crate::selection::marked(in_kept@, false).len() + (if restoring {
                1int
            } else {
                0
            }),
    {
        let errors = arrays.dropped_errors(
            in_kept.as_slice(),
            full_targets.as_slice(),
            Ghost(source),
        );
        let total = crate::sequence::sum(errors.as_slice());
        if total.le(max_error) {
            restoring = false;
        } else {
            match highest_slot(errors.as_slice()) {
                Some(slot) => {
                    let dropped = list_marked(in_kept.as_slice(), false);
                    let worst = dropped[slot];
                    proof {
                        crate::selection::marked_lists_the_flags(in_kept@, false);
                        assert(dropped@.contains(worst));
                        crate::selection::marking_one(in_kept@, worst as int, true);
                    }
                    in_kept.set(worst, true);
                    assert(in_kept@[worst as int]);
                },
                None => {
                    restoring = false;
                },
            }
        }
    }

    // Greedily drop the node that leaves the least total error, while that stays within
    // budget: once this node does not fit, no other does.
    let mut dropping = true;
    while dropping
        invariant
            count == source.nodes.len() == in_kept@.len() == full_targets@.len(),
            in_kept@.contains(true),
            arrays.describes(source),
            forall|i: int|
                0 <= i < count ==> #[trigger] full_targets@[i] == source.full_target(i as usize),
            dropping ==> source.pruned(in_kept@, max_error) == source.kept_within(
                max_error,
                seed,
            ),
            !dropping ==> in_kept@ == source.kept_within(max_error, seed),
        decreases
            crate::selection::marked(in_kept@, true).len() + (if dropping {
                1int
            } else {
                0
            }),
    {
        let kept = list_marked(in_kept.as_slice(), true);
        if kept.len() <= 1 {
            dropping = false;
        } else {
            proof {
                crate::selection::marked_lists_the_flags(in_kept@, true);
                source.cheapest_is_kept(in_kept@);
                crate::selection::marking_one(in_kept@, source.cheapest(in_kept@), false);
            }
            let totals = arrays.removal_totals(
                in_kept.as_slice(),
                kept.as_slice(),
                full_targets.as_slice(),
                Ghost(source),
            );
            let best_slot = match lowest_slot(totals.as_slice()) {
                Some(slot) => slot,
                None => 0,
            };
            if totals[best_slot].le(max_error) {
                in_kept.set(kept[best_slot], false);
                proof {
                    // One of the other kept nodes is still flagged.
                    let rest: int = if best_slot == 0 {
                        1
                    } else {
                        0
                    };
                    assert(kept@.contains(kept@[rest]));
                    assert(in_kept@[kept@[rest] as int]);
                }
            } else {
                dropping = false;
            }
        }
    }
    let kept = list_marked(in_kept.as_slice(), true);
    proof {
        crate::selection::marked_lists_the_flags(in_kept@, true);
    }
    build_delta(graph_delta, kept.as_slice())
}

} // verus!
