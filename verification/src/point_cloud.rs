//! `PointCloud2` — the data structure carried through the warp unchanged except
//! for the XYZ positions: XYZ plus optional per-point timestamps and intensities,
//! and cloud-level metadata.

use crate::scalar::Scalar;
use vstd::prelude::*;
use vstd::slice::slice_to_vec;

verus! {

/// A point cloud. Positions are stored in the scalar's narrow form, but the warp
/// computes in its full form for accuracy.
#[derive(Clone, Debug, PartialEq)]
pub struct PointCloud2<S: Scalar> {
    /// (M, 3) XYZ positions in world frame.
    pub points: Vec<[S::Narrow; 3]>,
    /// (M,) per-point observation timestamps in seconds. Binds each point to the
    /// pose-graph timeline. `None` means "unknown age".
    pub timestamps: Option<Vec<S>>,
    /// (M,) per-point intensities, carried through unchanged.
    pub intensities: Option<Vec<S::Narrow>>,
    /// Coordinate frame name, carried through unchanged.
    pub frame_id: String,
    /// Cloud-level timestamp (seconds), carried through unchanged.
    pub ts: S,
}

/// What a `PointCloud2` holds.
#[verifier::ext_equal]
pub struct Cloud<S: Scalar> {
    pub points: Seq<[S::Narrow; 3]>,
    pub timestamps: Option<Seq<S>>,
    pub intensities: Option<Seq<S::Narrow>>,
    pub frame_id: Seq<char>,
    pub ts: S,
}

/// The contents of an optional vector.
pub open spec fn contents<T>(values: Option<Vec<T>>) -> Option<Seq<T>> {
    match values {
        Some(v) => Some(v@),
        None => None,
    }
}

impl<S: Scalar> View for PointCloud2<S> {
    type V = Cloud<S>;

    open spec fn view(&self) -> Cloud<S> {
        Cloud {
            points: self.points@,
            timestamps: contents(self.timestamps),
            intensities: contents(self.intensities),
            frame_id: self.frame_id@,
            ts: self.ts,
        }
    }
}

impl<S: Scalar> Cloud<S> {
    /// The cloud without points.
    pub open spec fn nothing() -> Self {
        Cloud {
            points: Seq::empty(),
            timestamps: None,
            intensities: None,
            frame_id: Seq::empty(),
            ts: S::of_count(0),
        }
    }

    /// The same cloud at other positions.
    pub open spec fn at(self, points: Seq<[S::Narrow; 3]>) -> Self {
        Cloud { points, ..self }
    }
}

/// An optional vector that holds the same.
fn duplicate_values<T: Copy>(values: &Option<Vec<T>>) -> (r: Option<Vec<T>>)
    ensures
        contents(r) == contents(*values),
{
    match values {
        Some(v) => Some(slice_to_vec(v.as_slice())),
        None => None,
    }
}

impl<S: Scalar> Default for PointCloud2<S> {
    fn default() -> (r: Self)
        ensures
            r@ == Cloud::<S>::nothing(),
    {
        PointCloud2 {
            points: Vec::new(),
            timestamps: None,
            intensities: None,
            frame_id: String::new(),
            ts: S::from_count(0),
        }
    }
}

impl<S: Scalar> PointCloud2<S> {
    pub fn len(&self) -> (r: usize)
        ensures
            r == self@.points.len(),
    {
        self.points.len()
    }

    pub fn is_empty(&self) -> (r: bool)
        ensures
            r == (self@.points.len() == 0),
    {
        self.points.len() == 0
    }

    /// A cloud that holds the same.
    pub fn duplicate(&self) -> (r: Self)
        ensures
            r@ == self@,
    {
        self.with_points(slice_to_vec(self.points.as_slice()))
    }

    /// Build a cloud with the given positions and metadata copied from `self`.
    /// Used to produce the warped output while preserving everything else.
    pub fn with_points(&self, points: Vec<[S::Narrow; 3]>) -> (r: Self)
        ensures
            r@ == self@.at(points@),
    {
        PointCloud2 {
            points,
            timestamps: duplicate_values(&self.timestamps),
            intensities: duplicate_values(&self.intensities),
            frame_id: self.frame_id.clone(),
            ts: self.ts,
        }
    }
}

} // verus!
