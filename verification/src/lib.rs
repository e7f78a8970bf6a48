//! Per-point loop-closure warp for point clouds.
//!
//! Each point's correction is a proximity-weighted blend of the pose-graph node
//! deltas in both space and time, rotations blend with nlerp, and a dense graph
//! can be thinned to a node count or to an error budget by greedy decimation.
//! The per-point loop runs in parallel with rayon.
//!
//! Everything is generic over the [`Scalar`] it computes with.

pub mod demo;
pub mod exact;
pub mod field;
pub mod fixed;
pub mod graph;
pub mod math;
pub mod open_loop;
pub mod order;
mod parallel;
pub mod point_cloud;
pub mod reformer;
pub mod scalar;
pub mod selection;
pub mod sequence;
pub mod sparsify;
pub mod sweep;
pub mod synthetic;
pub mod thinning;
pub mod warp;

pub use fixed::Fixed;
pub use graph::{BlendDeltas, GraphDelta3D, Node, Transform};
pub use math::{lerp_vec3, nlerp, Quat, Vec3};
pub use point_cloud::PointCloud2;
pub use reformer::Reformer;
pub use scalar::{Arith, Scalar};
pub use sparsify::{sparsify, sparsify_within_error};
pub use synthetic::{generate_scene, LoopParams, LoopShape, SyntheticScene};
pub use warp::{apply_closure_to_cloud, reform, warp_positions};
