//! What holds of every warp: what it leaves alone, and how it treats the points one
//! by one.

use crate::graph::{Blend, Transform};
use crate::math::Vec3;
use crate::point_cloud::Cloud;
use crate::scalar::{Arith, Scalar};
use vstd::prelude::*;

verus! {

/// Two optional time sequences, one behind the other.
pub open spec fn joined<S>(first: Option<Seq<S>>, second: Option<Seq<S>>) -> Option<Seq<S>> {
    match (first, second) {
        (Some(a), Some(b)) => Some(a + b),
        _ => None,
    }
}

/// The point that a stored one stands for.
pub open spec fn unstored<S: Scalar>(point: [S::Narrow; 3]) -> Vec3<S> {
    Vec3 { x: S::widened(point[0]), y: S::widened(point[1]), z: S::widened(point[2]) }
}

/// A point is stored coordinate by coordinate, and read back so.
pub proof fn storage_keeps_coordinates_apart<S: Scalar>(point: Vec3<S>, kept: [S::Narrow; 3])
    ensures
        crate::synthetic::stored(point)@ == seq![
            point.x.narrowed(),
            point.y.narrowed(),
            point.z.narrowed(),
        ],
        unstored::<S>(kept).x == S::widened(kept[0]),
        unstored::<S>(kept).y == S::widened(kept[1]),
        unstored::<S>(kept).z == S::widened(kept[2]),
{
    assert(crate::synthetic::stored(point)@ =~= seq![
        point.x.narrowed(),
        point.y.narrowed(),
        point.z.narrowed(),
    ]);
}

/// The leader of some weights is the first of the greatest: no weight compares above it.
pub proof fn leader_has_the_greatest_weight<A: Arith>(weights: Seq<A>)
    requires
        crate::sequence::below_is_an_order::<A>(),
        weights.len() > 0,
    ensures
        ({
            let lead = crate::warp::leader(weights);
            &&& 0 <= lead < weights.len()
            &&& forall|j: int|
                0 <= j < weights.len() && A::unbounded().negated().below(#[trigger] weights[j])
                    ==> !weights[lead].below(weights[j])
            &&& forall|j: int|
                0 <= j < lead && A::unbounded().negated().below(weights[lead])
                    ==> #[trigger] weights[j] != weights[lead]
        }),
{
    crate::sequence::highest_is_greatest(weights);
    assert forall|j: int|
        0 <= j < weights.len() && A::unbounded().negated().below(
            #[trigger] weights[j],
        ) implies !weights[crate::warp::leader(weights)].below(weights[j]) by {
        crate::sequence::highest_names_a_position(weights, j);
    }
}

impl<S: Scalar> Blend<S> {
    /// Every point is warped by itself: warping two clouds one behind the other is
    /// warping each, and no point is lost or added.
    pub proof fn points_are_warped_one_by_one(
        self,
        first: Seq<[S::Narrow; 3]>,
        second: Seq<[S::Narrow; 3]>,
        first_times: Option<Seq<S>>,
        second_times: Option<Seq<S>>,
    )
        requires
            first_times is Some == second_times is Some,
            first_times matches Some(t) ==> t.len() == first.len(),
            second_times matches Some(t) ==> t.len() == second.len(),
        ensures
            self.warped_all(first, first_times).len() == first.len(),
            self.warped_all(first + second, joined(first_times, second_times))
                == self.warped_all(first, first_times) + self.warped_all(second, second_times),
    {
        let times = joined(first_times, second_times);
        let together = self.warped_all(first + second, times);
        let apart = self.warped_all(first, first_times) + self.warped_all(second, second_times);
        assert(together =~= apart);
    }

    /// Only the positions change: the timestamps, the intensities, the frame name and
    /// the cloud time stay, and so does the number of points.
    pub proof fn only_positions_change(self, cloud: Cloud<S>)
        ensures
            ({
                let warped = self.warped_cloud(cloud);
                &&& warped.points.len() == cloud.points.len()
                &&& warped.timestamps == cloud.timestamps
                &&& warped.intensities == cloud.intensities
                &&& warped.frame_id == cloud.frame_id
                &&& warped.ts == cloud.ts
            }),
    {
    }

    /// A cloud is warped point by point, each with its own timestamp where there are any.
    pub proof fn clouds_are_warped_with_their_times(self, cloud: Cloud<S>, i: int)
        requires
            0 <= i < cloud.points.len(),
        ensures
            self.positions.len() == 0 ==> self.warped_cloud(cloud) == cloud,
            self.positions.len() > 0 ==> self.warped_cloud(cloud).points[i] == self.warped(
                cloud.points[i],
                match cloud.timestamps {
                    Some(seen) => Some(seen[i]),
                    None => None,
                },
            ),
    {
        if self.positions.len() == 0 {
            assert(self.warped_cloud(cloud) =~= cloud);
        }
    }

    /// A lone node moves every point by its own delta, however far away and whenever
    /// seen.
    pub proof fn lone_node_is_rigid(
        self,
        points: Seq<[S::Narrow; 3]>,
        times: Option<Seq<S>>,
        i: int,
    )
        requires
            self.positions.len() == 1,
            0 <= i < points.len(),
        ensures
            ({
                let delta = Transform {
                    translation: self.translations[0],
                    rotation: self.rotations[0],
                };
                self.warped_all(points, times)[i] == crate::synthetic::stored(
                    delta.moved(unstored::<S>(points[i])),
                )
            }),
    {
    }

    /// Every point is moved rigidly, however many nodes there are: read from storage, turned
    /// and then shifted by the correction that is blended at its own place and time, and
    /// stored again, in all three coordinates.
    pub proof fn every_point_is_moved_rigidly(
        self,
        points: Seq<[S::Narrow; 3]>,
        times: Option<Seq<S>>,
        i: int,
    )
        requires
            self.positions.len() > 0,
            0 <= i < points.len(),
        ensures
            ({
                let before = Vec3 {
                    x: S::widened(points[i][0]),
                    y: S::widened(points[i][1]),
                    z: S::widened(points[i][2]),
                };
                let time = match times {
                    Some(seen) => Some(seen[i]),
                    None => None,
                };
                let (rotation, translation) = self.at(before, time);
                let turned = rotation.turned(before);
                let after = self.warped_all(points, times)[i];
                &&& self.warped_all(points, times).len() == points.len()
                &&& after[0] == turned.x.plus(translation.x).narrowed()
                &&& after[1] == turned.y.plus(translation.y).narrowed()
                &&& after[2] == turned.z.plus(translation.z).narrowed()
                &&& after == crate::synthetic::stored(
                    (Transform { translation, rotation }).moved(unstored::<S>(points[i])),
                )
            }),
    {
        assert(self.warped_all(points, times)[i]@ =~= crate::synthetic::stored(
            (Transform {
                translation: self.at(
                    unstored::<S>(points[i]),
                    crate::warp::time_of(times, i),
                ).1,
                rotation: self.at(unstored::<S>(points[i]), crate::warp::time_of(times, i)).0,
            }).moved(unstored::<S>(points[i])),
        )@);
    }

    /// Where two blends give the same correction at a point, they send it to the same
    /// place: nothing else of a blend reaches the point.
    pub proof fn equal_corrections_move_alike(
        self,
        other: Self,
        points: Seq<[S::Narrow; 3]>,
        times: Option<Seq<S>>,
        i: int,
    )
        requires
            self.positions.len() > 0,
            other.positions.len() > 0,
            0 <= i < points.len(),
            self.at(unstored::<S>(points[i]), crate::warp::time_of(times, i)) == other.at(
                unstored::<S>(points[i]),
                crate::warp::time_of(times, i),
            ),
        ensures
            self.warped_all(points, times)[i] == other.warped_all(points, times)[i],
    {
    }

    /// The weight of a node is the exponential of its spread's opposite, and a blend of two
    /// or more nodes is that of their deltas under these weights.
    pub proof fn weights_are_exponentials(self, point: Vec3<S>, time: Option<S>)
        ensures
            ({
                let weights = Seq::new(
                    self.positions.len(),
                    |i: int| self.spread(point, time, i).negated().exponential(),
                );
                &&& self.weights(point, time) == weights
                &&& self.at(point, time) == self.under(point, time, weights)
                &&& self.positions.len() != 1 ==> self.at(point, time) == crate::warp::mixed(
                    self.rotations,
                    self.translations,
                    self.spreads(point, time),
                    weights,
                )
            }),
    {
        let weights = Seq::new(
            self.positions.len(),
            |i: int| self.spread(point, time, i).negated().exponential(),
        );
        assert(self.weights(point, time) =~= weights);
    }

    /// Where the weights have all but vanished, the delta of a closest node is taken
    /// as it is: no node has a smaller spread. (Where no spread can be compared, none
    /// can be told to be closer.)
    pub proof fn far_point_takes_the_closest_delta(self, point: Vec3<S>, time: Option<S>)
        requires
            crate::sequence::below_is_an_order::<S>(),
            self.positions.len() > 0,
            !S::of_ratio(1, 1_000_000_000_000).below(
                crate::sequence::total(self.weights(point, time)),
            ),
        ensures
            ({
                let k = crate::warp::closest(
                    self.spreads(point, time),
                    self.weights(point, time),
                );
                &&& 0 <= k < self.positions.len()
                &&& self.at(point, time) == (self.rotations[k], self.translations[k])
                &&& forall|j: int|
                    0 <= j < self.positions.len() && self.spread(point, time, k).below(
                        S::unbounded(),
                    ) ==> !(#[trigger] self.spread(point, time, j)).below(
                        self.spread(point, time, k),
                    )
                &&& !self.spread(point, time, k).below(S::unbounded()) ==> forall|j: int|
                    0 <= j < self.positions.len() ==> !(#[trigger] self.spread(
                        point,
                        time,
                        j,
                    )).below(S::unbounded())
            }),
    {
        let spreads = self.spreads(point, time);
        let weights = self.weights(point, time);
        crate::sequence::lowest_is_least(spreads);
        crate::sequence::highest_in_range(weights);
        let k = crate::warp::closest(spreads, weights);
        assert forall|j: int| 0 <= j < self.positions.len() implies #[trigger] self.spread(
            point,
            time,
            j,
        ) == spreads[j] by {}
    }

    /// Without timestamps the blend is spatial only: neither the node times nor the
    /// temporal bandwidth have a say.
    pub proof fn untimed_points_ignore_node_times(self, other: Self, points: Seq<[S::Narrow; 3]>)
        requires
            other.positions == self.positions,
            other.rotations == self.rotations,
            other.translations == self.translations,
            other.sigma == self.sigma,
        ensures
            self.warped_all(points, None) == other.warped_all(points, None),
    {
        assert forall|i: int| 0 <= i < points.len() implies self.warped(points[i], None)
            == other.warped(points[i], None) by {
            let p = unstored::<S>(points[i]);
            assert(self.spreads(p, None) =~= other.spreads(p, None));
        }
        assert(self.warped_all(points, None) =~= other.warped_all(points, None));
    }
}

} // verus!
