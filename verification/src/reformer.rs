//! `Reformer` — a stateful handle around a pose-graph correction.
//!
//! The one-shot [`reform`](crate::warp::reform) rebuilds the blend arrays
//! (normalized rotations, node anchors/times, resolved bandwidths) on every
//! call. When the same correction is applied to many clouds
//! — or a live map is re-warped as new points stream in — that rebuild is wasted
//! work. `Reformer` owns the `GraphDelta3D` and caches its `BlendDeltas`,
//! recomputing the cache only when the correction changes (`set_delta` /
//! `sparsify`). Callers then `apply` on demand against the cached arrays.

use crate::graph::{BlendDeltas, Correction, GraphDelta3D};
use crate::point_cloud::PointCloud2;
use crate::scalar::Scalar;
use crate::sparsify::{sparsify, sparsify_within_error};
use crate::warp::{warp_cloud, warp_positions};
use vstd::prelude::*;

verus! {

/// A reusable warper: holds a *full* correction and the (possibly thinned) active
/// subset it applies, caching the active subset's blend arrays so `apply` never
/// rebuilds them. Update the correction with `set_delta`, thin it with `sparsify`
/// / `sparsify_within_error`, or push a fresh correction with
/// `update_within_error` (which warm-starts the thinning from the last kept set).
#[derive(Debug)]
pub struct Reformer<S: Scalar> {
    /// The complete correction, all nodes — the source the sparsifiers thin from.
    full: GraphDelta3D<S>,
    /// The subset currently applied (equals `full` until thinned).
    active: GraphDelta3D<S>,
    /// Cached blend arrays of `active`.
    blend: BlendDeltas<S>,
}

impl<S: Scalar> Reformer<S> {
    /// The cache is that of the active correction.
    #[verifier::type_invariant]
    spec fn cached(self) -> bool {
        self.blend@ == self.active@.blend()
    }

    /// The complete correction.
    pub closed spec fn whole(self) -> Correction<S> {
        self.full@
    }

    /// The correction that is applied.
    pub closed spec fn applied(self) -> Correction<S> {
        self.active@
    }

    /// Build a reformer for a correction, precomputing its blend arrays. Nothing
    /// is thinned yet, so the active subset is the whole correction.
    pub fn new(graph_delta: GraphDelta3D<S>) -> (r: Self)
        ensures
            r.whole() == graph_delta@,
            r.applied() == graph_delta@,
    {
        let blend = graph_delta.to_blend_arrays();
        Reformer { full: graph_delta.duplicate(), active: graph_delta, blend }
    }

    /// Set the active subset (and its cache) directly.
    fn set_active(&mut self, active: GraphDelta3D<S>)
        ensures
            final(self).whole() == old(self).whole(),
            final(self).applied() == active@,
    {
        proof {
            use_type_invariant(&*self);
        }
        let blend = active.to_blend_arrays();
        let mut next = Reformer { full: GraphDelta3D::default(), active, blend };
        std::mem::swap(&mut next.full, &mut self.full);
        *self = next;
    }

    /// Replace the full correction (resetting any thinning) and rebuild the cache.
    pub fn set_delta(&mut self, graph_delta: GraphDelta3D<S>)
        ensures
            final(self).whole() == graph_delta@,
            final(self).applied() == graph_delta@,
    {
        proof {
            use_type_invariant(&*self);
        }
        self.full = graph_delta.duplicate();
        self.set_active(graph_delta);
    }

    /// The node ids currently kept in the active subset — the warm-start seed for
    /// the next `update_within_error`.
    pub fn kept_ids(&self) -> (r: Vec<u64>)
        ensures
            r@ == self.applied().ids(),
    {
        self.active.gather_ids()
    }

    /// Thin the full correction to `target_nodes` (greedy leave-one-out
    /// decimation) and rebuild the cache.
    pub fn sparsify(&mut self, target_nodes: usize)
        requires
            0 < target_nodes < old(self).whole().nodes.len() ==> old(self).whole().aligned(),
        ensures
            final(self).whole() == old(self).whole(),
            final(self).applied() == old(self).whole().thinned_to(target_nodes as nat),
    {
        let thinned = sparsify(&self.full, target_nodes);
        self.set_active(thinned);
    }

    /// Thin the full correction as far as the accumulated anchor error allows
    /// (`<= max_error` vs the full deformation), warm-starting from the currently
    /// kept nodes. Rebuilds the cache.
    pub fn sparsify_within_error(&mut self, max_error: S)
        requires
            old(self).whole().nodes.len() > 1 ==> old(self).whole().aligned(),
        ensures
            final(self).whole() == old(self).whole(),
            final(self).applied() == old(self).whole().thinned_within(
                max_error,
                Some(old(self).applied().ids()),
            ),
    {
        let seed = self.kept_ids();
        let thinned = sparsify_within_error(&self.full, max_error, Some(seed.as_slice()));
        self.set_active(thinned);
    }

    /// Push a fresh correction (the same nodes, matched by id, with updated
    /// deltas) and re-thin it within `max_error`, warm-starting from the nodes
    /// kept last time. Cheap when the graph was thinned before: it starts from the
    /// previous selection instead of every node. Rebuilds the cache.
    pub fn update_within_error(&mut self, graph_delta: GraphDelta3D<S>, max_error: S)
        requires
            graph_delta@.nodes.len() > 1 ==> graph_delta@.aligned(),
        ensures
            final(self).whole() == graph_delta@,
            final(self).applied() == graph_delta@.thinned_within(
                max_error,
                Some(old(self).applied().ids()),
            ),
    {
        let seed = self.kept_ids();
        let thinned = sparsify_within_error(&graph_delta, max_error, Some(seed.as_slice()));
        proof {
            use_type_invariant(&*self);
        }
        self.full = graph_delta;
        self.set_active(thinned);
    }

    /// Warp a whole cloud with the cached correction. Pass-through when the
    /// correction has no nodes or the cloud is empty. The result is that of the
    /// one-shot `reform` with the active correction.
    pub fn apply(&self, cloud: &PointCloud2<S>) -> (r: PointCloud2<S>)
        requires
            self.applied().fits(cloud@),
        ensures
            r@ == self.applied().blend().warped_cloud(cloud@),
            cloud@.points.len() == 0 || self.applied().nodes.len() == 0 ==> r@ == cloud@,
    {
        proof {
            use_type_invariant(self);
        }
        if self.blend.is_empty() || cloud.is_empty() {
            assert(self.blend@.warped_all(cloud@.points, cloud@.timestamps) =~= cloud@.points);
            return cloud.duplicate();
        }
        warp_cloud(cloud, &self.blend)
    }

    /// Warp raw positions with the cached correction. `point_times`, when present,
    /// must align with `points`.
    pub fn apply_positions(
        &self,
        points: &[[S::Narrow; 3]],
        point_times: Option<&[S]>,
    ) -> (r: Vec<[S::Narrow; 3]>)
        requires
            self.applied().blend().fits(points@.len(), crate::warp::slice_contents(point_times)),
        ensures
            r@ == self.applied().blend().warped_all(
                points@,
                crate::warp::slice_contents(point_times),
            ),
    {
        proof {
            use_type_invariant(self);
        }
        warp_positions(points, point_times, &self.blend)
    }

    /// The active (possibly thinned) correction being applied — e.g. to read its
    /// node count after sparsifying.
    pub fn graph_delta(&self) -> (r: &GraphDelta3D<S>)
        ensures
            r@ == self.applied(),
    {
        &self.active
    }

    /// The full, un-thinned correction the sparsifiers work from.
    pub fn full_delta(&self) -> (r: &GraphDelta3D<S>)
        ensures
            r@ == self.whole(),
    {
        &self.full
    }

    /// The cached blend arrays.
    pub fn blend(&self) -> (r: &BlendDeltas<S>)
        ensures
            r@ == self.applied().blend(),
    {
        proof {
            use_type_invariant(self);
        }
        &self.blend
    }

    pub fn is_empty(&self) -> (r: bool)
        ensures
            r == (self.applied().nodes.len() == 0),
    {
        proof {
            use_type_invariant(self);
        }
        self.blend.is_empty()
    }
}

impl<S: Scalar> Clone for Reformer<S> {
    fn clone(&self) -> (r: Self)
        ensures
            r.whole() == self.whole(),
            r.applied() == self.applied(),
    {
        proof {
            use_type_invariant(self);
        }
        Reformer {
            full: self.full.duplicate(),
            active: self.active.duplicate(),
            blend: self.blend.duplicate(),
        }
    }
}

} // verus!
