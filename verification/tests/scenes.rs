//! Double-precision scenes: the expected physical behavior of the warp and of the
//! thinning (spiral collapses back to a clean circle, older points move less,
//! thinned corrections still close the loop, results are deterministic).

use fast_reform::demo::{demo_params, DemoState};
use fast_reform::synthetic::{generate_scene, LoopParams, SyntheticScene};
use fast_reform::warp::blend_at;
use fast_reform::{
    apply_closure_to_cloud, nlerp, reform, sparsify, sparsify_within_error, Arith, GraphDelta3D,
    Node, PointCloud2, Quat, Reformer, Scalar, Transform, Vec3,
};

/// Double precision; positions are stored in single precision.
#[derive(Clone, Copy, Debug, PartialEq)]
struct Double(f64);

impl Arith for Double {
    fn of_count(n: u64) -> Double {
        Double(n as f64)
    }
    fn of_ratio(n: u64, d: u64) -> Double {
        Double(n as f64 / d as f64)
    }
    fn unbounded() -> Double {
        Double(f64::INFINITY)
    }
    fn plus(self, other: Double) -> Double {
        Double(self.0 + other.0)
    }
    fn minus(self, other: Double) -> Double {
        Double(self.0 - other.0)
    }
    fn times(self, other: Double) -> Double {
        Double(self.0 * other.0)
    }
    fn over(self, other: Double) -> Double {
        Double(self.0 / other.0)
    }
    fn negated(self) -> Double {
        Double(-self.0)
    }
    fn magnitude(self) -> Double {
        Double(self.0.abs())
    }
    fn root(self) -> Double {
        Double(self.0.sqrt())
    }
    fn larger(self, other: Double) -> Double {
        Double(self.0.max(other.0))
    }
    fn smaller(self, other: Double) -> Double {
        Double(self.0.min(other.0))
    }
    fn below(self, other: Double) -> bool {
        self.0 < other.0
    }
    fn at_most(self, other: Double) -> bool {
        self.0 <= other.0
    }
    fn same(self, other: Double) -> bool {
        self.0 == other.0
    }
}

impl Scalar for Double {
    type Narrow = f32;

    fn exponential(self) -> Double {
        Double(self.0.exp())
    }
    fn sine(self) -> Double {
        Double(self.0.sin())
    }
    fn cosine(self) -> Double {
        Double(self.0.cos())
    }
    fn whole(self) -> Double {
        Double(self.0.floor())
    }
    fn wrapped(self, modulus: Double) -> Double {
        Double(self.0.rem_euclid(modulus.0))
    }
    fn full_turn() -> Double {
        Double(std::f64::consts::TAU)
    }
    fn narrowed(self) -> f32 {
        self.0 as f32
    }
    fn widened(stored: f32) -> Double {
        Double(stored as f64)
    }
    fn index(self) -> usize {
        self.0 as usize
    }

    fn from_count(n: u64) -> Double {
        Self::of_count(n)
    }
    fn from_ratio(n: u64, d: u64) -> Double {
        Self::of_ratio(n, d)
    }
    fn infinity() -> Double {
        Self::unbounded()
    }
    fn add(self, other: Double) -> Double {
        self.plus(other)
    }
    fn sub(self, other: Double) -> Double {
        self.minus(other)
    }
    fn mul(self, other: Double) -> Double {
        self.times(other)
    }
    fn div(self, other: Double) -> Double {
        self.over(other)
    }
    fn neg(self) -> Double {
        self.negated()
    }
    fn abs(self) -> Double {
        self.magnitude()
    }
    fn sqrt(self) -> Double {
        self.root()
    }
    fn max(self, other: Double) -> Double {
        self.larger(other)
    }
    fn min(self, other: Double) -> Double {
        self.smaller(other)
    }
    fn lt(self, other: Double) -> bool {
        self.below(other)
    }
    fn le(self, other: Double) -> bool {
        self.at_most(other)
    }
    fn eq(self, other: Double) -> bool {
        self.same(other)
    }
    fn exp(self) -> Double {
        self.exponential()
    }
    fn sin(self) -> Double {
        self.sine()
    }
    fn cos(self) -> Double {
        self.cosine()
    }
    fn floor(self) -> Double {
        self.whole()
    }
    fn rem_euclid(self, modulus: Double) -> Double {
        self.wrapped(modulus)
    }
    fn tau() -> Double {
        Self::full_turn()
    }
    fn narrow(self) -> f32 {
        self.narrowed()
    }
    fn widen(stored: f32) -> Double {
        Self::widened(stored)
    }
    fn to_index(self) -> usize {
        self.index()
    }
}

fn vec3(x: f64, y: f64, z: f64) -> Vec3<Double> {
    Vec3::new(Double(x), Double(y), Double(z))
}

fn node(id: u64, ts: f64, position: Vec3<Double>) -> Node<Double> {
    Node { id, ts: Double(ts), position }
}

fn default_scene() -> SyntheticScene<Double> {
    generate_scene(&LoopParams::default())
}

fn distance_from_origin(point: [f32; 3]) -> f64 {
    let x = point[0] as f64;
    let y = point[1] as f64;
    (x * x + y * y).sqrt()
}

fn seconds(times: &[Double]) -> Vec<f64> {
    times.iter().map(|t| t.0).collect()
}

#[test]
fn closure_collapses_spiral_back_onto_the_circle() {
    let params = LoopParams::<Double>::default();
    let scene = generate_scene(&params);

    // Before closure the drifted cloud spills well outside the circle band.
    let band = params.sensor_spread.0 * 2.0;
    let open_max =
        scene.cloud.points.iter().map(|&p| distance_from_origin(p)).fold(0.0_f64, f64::max);
    assert!(
        open_max > params.radius.0 + band,
        "expected drift to push points past the band, max radius was {open_max}"
    );

    // After closure every point sits within the circle's sensor band.
    let closed = reform(&scene.cloud, &scene.graph_delta);
    for &point in &closed.points {
        let radius = distance_from_origin(point);
        assert!(
            (radius - params.radius.0).abs() <= band + 1e-3,
            "point off the circle after closure: radius {radius}, expected ~{}",
            params.radius.0
        );
    }
}

#[test]
fn older_points_move_less_than_newer_points() {
    let scene = default_scene();
    let closed = reform(&scene.cloud, &scene.graph_delta);

    let displacement = |index: usize| -> f64 {
        let before = scene.cloud.points[index];
        let after = closed.points[index];
        let dx = (after[0] - before[0]) as f64;
        let dy = (after[1] - before[1]) as f64;
        (dx * dx + dy * dy).sqrt()
    };

    // Points are sampled continuously, so pick the earliest- and latest-observed
    // by timestamp. The earliest (drift ~identity) barely moves; the latest moves far.
    let times = seconds(scene.cloud.timestamps.as_ref().expect("scene has timestamps"));
    let earliest_point = (0..times.len())
        .min_by(|&a, &b| times[a].partial_cmp(&times[b]).unwrap())
        .unwrap();
    let latest_point = (0..times.len())
        .max_by(|&a, &b| times[a].partial_cmp(&times[b]).unwrap())
        .unwrap();
    assert!(
        displacement(earliest_point) < displacement(latest_point),
        "earliest {} should move less than latest {}",
        displacement(earliest_point),
        displacement(latest_point)
    );
    assert!(displacement(earliest_point) < 0.5, "earliest point should barely move");
}

#[test]
fn seam_ends_overlap_after_closure() {
    let params = LoopParams::<Double>::default();
    let scene = generate_scene(&params);

    // Warp the node positions too, using the same correction, so we can compare
    // the closed-loop node positions directly.
    let node_cloud = PointCloud2 {
        points: scene.node_positions.clone(),
        timestamps: Some(scene.node_times.clone()),
        ..PointCloud2::default()
    };
    let closed_nodes = reform(&node_cloud, &scene.graph_delta);

    // The last node ends one angular step before node 0, so after closure it
    // should be roughly one chord length away — far closer than the open-loop gap.
    let first = closed_nodes.points[0];
    let last = closed_nodes.points[closed_nodes.points.len() - 1];
    let closed_gap = {
        let dx = (last[0] - first[0]) as f64;
        let dy = (last[1] - first[1]) as f64;
        (dx * dx + dy * dy).sqrt()
    };
    let one_step_chord = params.radius.0 * (std::f64::consts::TAU / params.num_nodes as f64);
    assert!(
        closed_gap < one_step_chord * 1.5,
        "seam ends did not overlap: gap {closed_gap}, chord {one_step_chord}"
    );
}

#[test]
fn scene_generation_is_deterministic() {
    let params = LoopParams::<Double>::default();
    let first = generate_scene(&params);
    let second = generate_scene(&params);
    assert_eq!(first.cloud, second.cloud);
    assert_eq!(first.graph_delta.transforms.len(), second.graph_delta.transforms.len());
}

#[test]
fn scaled_correction_interpolates_open_to_closed() {
    let scene = default_scene();

    // alpha = 0 is the open loop (no change); alpha = 1 is the closed loop.
    let open = reform(&scene.cloud, &scene.graph_delta.scaled(Double(0.0)));
    assert_eq!(open.points, scene.cloud.points);

    let closed_full = reform(&scene.cloud, &scene.graph_delta);
    let closed_scaled = reform(&scene.cloud, &scene.graph_delta.scaled(Double(1.0)));
    assert_eq!(closed_full.points, closed_scaled.points);
}

#[test]
fn empty_graph_delta_is_identity() {
    let scene = default_scene();
    let unchanged = reform(&scene.cloud, &GraphDelta3D::default());
    assert_eq!(unchanged.points, scene.cloud.points);
}

fn translate_x(amount: f64) -> Transform<Double> {
    Transform { translation: vec3(amount, 0.0, 0.0), rotation: Quat::identity() }
}

/// Two anchors 10 apart on x: node A at origin translates +0, node B at
/// (10,0,0) translates +6. Small sigma so each anchor dominates near itself.
fn two_node_delta() -> GraphDelta3D<Double> {
    GraphDelta3D {
        nodes: vec![node(0, 0.0, vec3(0.0, 0.0, 0.0)), node(1, 1.0, vec3(10.0, 0.0, 0.0))],
        transforms: vec![translate_x(0.0), translate_x(6.0)],
        blend_sigma: Double(2.0),
        blend_time_sigma: Double(1.0),
    }
}

#[test]
fn correction_matches_the_nearest_anchor() {
    let deltas = two_node_delta().to_blend_arrays();
    // Right on anchor A (time 0) → ~A's delta (no shift).
    let (_, at_a) = blend_at(&deltas, vec3(0.0, 0.0, 0.0), Some(Double(0.0)));
    assert!(at_a.x.0.abs() < 0.1, "near A expected ~0, got {}", at_a.x.0);
    // Right on anchor B (time 1) → ~B's delta (+6).
    let (_, at_b) = blend_at(&deltas, vec3(10.0, 0.0, 0.0), Some(Double(1.0)));
    assert!((at_b.x.0 - 6.0).abs() < 0.1, "near B expected ~6, got {}", at_b.x.0);
}

#[test]
fn blend_is_monotonic_and_non_folding_between_anchors() {
    let deltas = two_node_delta().to_blend_arrays();
    // The output x-coordinate must stay strictly increasing as the input x
    // sweeps A→B (time interpolated with it): that is "no fold-over" locally.
    let mut previous = f64::NEG_INFINITY;
    let mut x = 0.0;
    while x <= 10.0 {
        let time = x / 10.0;
        let (_, translation) = blend_at(&deltas, vec3(x, 0.0, 0.0), Some(Double(time)));
        let output = x + translation.x.0;
        assert!(output > previous, "folded at x={x}: {output} <= {previous}");
        previous = output;
        x += 0.25;
    }
}

#[test]
fn empty_cloud_passes_through() {
    let cloud = PointCloud2::<Double>::default();
    let delta = GraphDelta3D {
        nodes: vec![node(0, 0.0, Vec3::zero())],
        transforms: vec![Transform::identity()],
        blend_sigma: Double(1.0),
        blend_time_sigma: Double(1.0),
    };
    assert_eq!(apply_closure_to_cloud(&cloud, &delta), cloud);
}

#[test]
fn empty_delta_passes_through() {
    let cloud = PointCloud2::<Double> { points: vec![[1.0, 2.0, 3.0]], ..PointCloud2::default() };
    let delta = GraphDelta3D::default();
    assert_eq!(apply_closure_to_cloud(&cloud, &delta), cloud);
}

#[test]
fn single_node_applies_its_rigid_delta_everywhere() {
    let cloud = PointCloud2::<Double> {
        points: vec![[0.0, 0.0, 0.0], [50.0, 0.0, 0.0]],
        ..PointCloud2::default()
    };
    let delta = GraphDelta3D {
        nodes: vec![node(0, 0.0, Vec3::zero())],
        transforms: vec![translate_x(5.0)],
        blend_sigma: Double(1.0),
        blend_time_sigma: Double(1.0),
    };
    let warped = apply_closure_to_cloud(&cloud, &delta);
    assert!((warped.points[0][0] - 5.0).abs() < 1e-6);
    assert!((warped.points[1][0] - 55.0).abs() < 1e-6);
}

#[test]
fn target_node_count_is_respected() {
    let scene = default_scene();
    let thinned = sparsify(&scene.graph_delta, 12);
    assert_eq!(thinned.len(), 12);
    assert_eq!(thinned.transforms.len(), 12);
}

#[test]
fn sparsify_is_a_passthrough_when_target_exceeds_node_count() {
    let scene = default_scene();
    let count = scene.graph_delta.len();
    let thinned = sparsify(&scene.graph_delta, count + 10);
    assert_eq!(thinned, scene.graph_delta);
}

/// A zero budget forbids any error, so every node is kept; a generous budget
/// drops nodes. Kept ids stay a subset of the originals in both cases.
#[test]
fn error_budget_bounds_how_many_nodes_drop() {
    let scene = default_scene();
    let count = scene.graph_delta.len();

    let strict = sparsify_within_error(&scene.graph_delta, Double(0.0), None);
    assert_eq!(strict.len(), count, "zero budget must keep every node");

    let generous = sparsify_within_error(&scene.graph_delta, Double(1.0), None);
    assert!(generous.len() < count, "a generous budget should drop nodes");

    let original_ids: std::collections::HashSet<u64> =
        scene.graph_delta.nodes.iter().map(|node| node.id).collect();
    assert!(generous.nodes.iter().all(|node| original_ids.contains(&node.id)));
}

/// Warm-starting from a subset of ids begins the search there; the result is
/// still a valid within-budget thinning (a subset of the originals).
#[test]
fn warm_start_seed_is_honored() {
    let scene = default_scene();
    let seed: Vec<u64> = scene.graph_delta.nodes.iter().map(|node| node.id).take(15).collect();
    let thinned = sparsify_within_error(&scene.graph_delta, Double(0.3), Some(&seed));
    let original_ids: std::collections::HashSet<u64> =
        scene.graph_delta.nodes.iter().map(|node| node.id).collect();
    assert!(!thinned.nodes.is_empty());
    assert!(thinned.nodes.iter().all(|node| original_ids.contains(&node.id)));
}

/// The whole point: dropping redundant nodes must still close the loop. Warp
/// the drifted cloud with a heavily thinned correction and check the seam
/// ends (earliest vs latest point) still overlap about as well as with the
/// full graph.
#[test]
fn thinned_correction_still_closes_the_loop() {
    let scene = default_scene();
    let thinned = sparsify(&scene.graph_delta, 10);

    let full = reform(&scene.cloud, &scene.graph_delta);
    let sparse = reform(&scene.cloud, &thinned);

    let times = seconds(scene.cloud.timestamps.as_deref().unwrap());
    let full_gap = seam_gap(&full, &times);
    let sparse_gap = seam_gap(&sparse, &times);

    // The thinned warp should not be dramatically worse than the full one.
    assert!(
        sparse_gap < full_gap + 2.0,
        "thinned seam gap {sparse_gap} vs full {full_gap}"
    );
}

fn seam_gap(cloud: &PointCloud2<Double>, times: &[f64]) -> f64 {
    let mut earliest = 0usize;
    let mut latest = 0usize;
    for index in 1..times.len() {
        if times[index] < times[earliest] {
            earliest = index;
        }
        if times[index] > times[latest] {
            latest = index;
        }
    }
    let a = cloud.points[earliest];
    let b = cloud.points[latest];
    let dx = (a[0] - b[0]) as f64;
    let dy = (a[1] - b[1]) as f64;
    (dx * dx + dy * dy).sqrt()
}

#[test]
fn reform_apply_matches_the_one_shot_function() {
    let scene = default_scene();
    let reformer = Reformer::new(scene.graph_delta.clone());

    let via_struct = reformer.apply(&scene.cloud);
    let via_function = apply_closure_to_cloud(&scene.cloud, &scene.graph_delta);
    assert_eq!(via_struct, via_function);
}

#[test]
fn reform_set_delta_rebuilds_the_cache() {
    let scene = default_scene();
    let mut reformer = Reformer::new(GraphDelta3D::default());
    // Empty correction is a pass-through.
    assert_eq!(reformer.apply(&scene.cloud), scene.cloud);

    reformer.set_delta(scene.graph_delta.clone());
    let warped = reformer.apply(&scene.cloud);
    assert_eq!(warped, apply_closure_to_cloud(&scene.cloud, &scene.graph_delta));
}

#[test]
fn reform_sparsify_reduces_the_held_node_count() {
    let scene = default_scene();
    let mut reformer = Reformer::new(scene.graph_delta.clone());
    reformer.sparsify(10);
    assert_eq!(reformer.graph_delta().len(), 10);
    // Still applies without the two seam ends drifting apart.
    let warped = reformer.apply(&scene.cloud);
    assert_eq!(warped.len(), scene.cloud.len());
}

#[test]
fn reformer_apply_matches_the_one_shot_function() {
    let scene = default_scene();
    let reformer = Reformer::new(scene.graph_delta.clone());

    let via_struct = reformer.apply(&scene.cloud);
    let via_function = reform(&scene.cloud, &scene.graph_delta);
    assert_eq!(via_struct, via_function);
}

#[test]
fn reformer_set_delta_rebuilds_the_cache() {
    let scene = default_scene();
    let mut reformer = Reformer::new(GraphDelta3D::default());
    // Empty correction is a pass-through.
    assert_eq!(reformer.apply(&scene.cloud), scene.cloud);

    reformer.set_delta(scene.graph_delta.clone());
    let warped = reformer.apply(&scene.cloud);
    assert_eq!(warped, reform(&scene.cloud, &scene.graph_delta));
}

#[test]
fn reformer_sparsify_reduces_the_held_node_count() {
    let scene = default_scene();
    let mut reformer = Reformer::new(scene.graph_delta.clone());
    reformer.sparsify(10);
    assert_eq!(reformer.graph_delta().len(), 10);
    // Still applies without the two seam ends drifting apart.
    let warped = reformer.apply(&scene.cloud);
    assert_eq!(warped.len(), scene.cloud.len());
    // The full correction is retained even though the active one shrank.
    assert_eq!(reformer.full_delta().len(), scene.graph_delta.len());
}

/// A bigger error budget must keep no more nodes than a tighter one.
#[test]
fn error_budget_trades_nodes_for_accuracy() {
    let scene = default_scene();
    let mut tight = Reformer::new(scene.graph_delta.clone());
    let mut loose = Reformer::new(scene.graph_delta.clone());
    tight.sparsify_within_error(Double(0.05));
    loose.sparsify_within_error(Double(0.5));
    assert!(
        loose.graph_delta().len() <= tight.graph_delta().len(),
        "looser budget kept more nodes: {} vs {}",
        loose.graph_delta().len(),
        tight.graph_delta().len(),
    );
}

/// Warm-starting an update from the last kept set reproduces a from-scratch
/// thin of that same delta (the seed only changes where the search starts).
#[test]
fn warm_start_update_matches_a_cold_thin() {
    let scene = default_scene();
    let mut reformer = Reformer::new(scene.graph_delta.clone());
    reformer.sparsify_within_error(Double(0.2));

    // A fresh correction over the same node ids (here, the same deltas).
    reformer.update_within_error(scene.graph_delta.clone(), Double(0.2));
    let warm_ids = reformer.kept_ids();

    let cold = sparsify_within_error(&scene.graph_delta, Double(0.2), None);
    let cold_ids: Vec<u64> = cold.nodes.iter().map(|node| node.id).collect();
    assert_eq!(warm_ids, cold_ids);
}

#[test]
fn quick_start_shifts_the_late_point() {
    // Two points, each tagged with the time it was observed.
    let cloud = PointCloud2::<Double> {
        points: vec![[0.0, 0.0, 0.0], [10.0, 0.0, 0.0]],
        timestamps: Some(vec![Double(0.0), Double(1.0)]),
        ..PointCloud2::default()
    };
    // Node 0 (t = 0) is already correct; node 1 (t = 1) needs a +2 shift in x.
    let correction = GraphDelta3D {
        nodes: vec![node(0, 0.0, vec3(0.0, 0.0, 0.0)), node(1, 1.0, vec3(10.0, 0.0, 0.0))],
        transforms: vec![Transform::identity(), translate_x(2.0)],
        blend_sigma: Double(0.0),
        blend_time_sigma: Double(0.0),
    };
    let warped = reform(&cloud, &correction);
    assert!(warped.points[1][0] > 11.0);
    assert!(warped.points[0][0].abs() < 1.0);
    // sigma = 20 and time_sigma = 2: each point sees the other node at 1/8 + 1/8.
    let far = (-0.25_f64).exp();
    let late = 10.0 + 2.0 / (1.0 + far);
    let early = 2.0 * far / (1.0 + far);
    assert!((warped.points[0][0] as f64 - early).abs() < 1e-5);
    assert!((warped.points[1][0] as f64 - late).abs() < 1e-5);
}

#[test]
fn far_point_takes_its_nearest_delta() {
    let deltas = two_node_delta().to_blend_arrays();
    // So far away that every weight underflows to zero.
    for (x, shift) in [(1000.0, 6.0), (-1000.0, 0.0), (5.001e6, 6.0), (-5.0e6, 0.0)] {
        let (rotation, translation) = blend_at(&deltas, vec3(x, 0.0, 0.0), None);
        assert_eq!(translation, vec3(shift, 0.0, 0.0), "at {x}");
        assert_eq!(rotation, Quat::identity());
        let (_, translation) = blend_at(&deltas, vec3(x, 0.0, 0.0), Some(Double(0.5)));
        assert_eq!(translation, vec3(shift, 0.0, 0.0), "at {x}, timed");
    }
}

#[test]
fn incomparable_spreads_fall_back_to_the_first_node() {
    let deltas = two_node_delta().to_blend_arrays();
    let (_, translation) = blend_at(&deltas, vec3(f64::NAN, 0.0, 0.0), None);
    assert_eq!(translation, vec3(0.0, 0.0, 0.0));
    let (_, translation) = blend_at(&deltas, vec3(f64::INFINITY, 0.0, 0.0), None);
    assert_eq!(translation, vec3(0.0, 0.0, 0.0));
}

#[test]
fn seam_points_stay_bound_to_their_segment() {
    // Two visits of one place need opposite corrections.
    let delta = GraphDelta3D {
        nodes: vec![node(0, 0.0, Vec3::zero()), node(1, 60.0, Vec3::zero())],
        transforms: vec![translate_x(-3.0), translate_x(3.0)],
        blend_sigma: Double(2.0),
        blend_time_sigma: Double(5.0),
    };
    let cloud = PointCloud2::<Double> {
        points: vec![[1.0, 0.0, 0.0], [1.0, 0.0, 0.0]],
        timestamps: Some(vec![Double(1.0), Double(58.0)]),
        ..PointCloud2::default()
    };
    let warped = reform(&cloud, &delta);
    assert!((warped.points[0][0] + 2.0).abs() < 1e-6);
    assert!((warped.points[1][0] - 4.0).abs() < 1e-6);
    // Without times the two are averaged away.
    let untimed = PointCloud2 { timestamps: None, ..cloud };
    assert!((reform(&untimed, &delta).points[0][0] - 1.0).abs() < 1e-6);
}

#[test]
fn only_the_positions_change() {
    let cloud = PointCloud2::<Double> {
        points: vec![[1.0, 2.0, 3.0], [4.0, 5.0, 6.0]],
        timestamps: Some(vec![Double(0.25), Double(0.5)]),
        intensities: Some(vec![0.5, 0.75]),
        frame_id: "lidar".to_string(),
        ts: Double(12.5),
    };
    let warped = reform(&cloud, &two_node_delta());
    assert_ne!(warped.points, cloud.points);
    assert_eq!(warped.with_points(cloud.points.clone()), cloud);
    assert_eq!(cloud.duplicate(), cloud);
    assert_eq!((cloud.len(), cloud.is_empty()), (2, false));
}

#[test]
fn thinning_for_a_smaller_target_is_nested() {
    let scene = default_scene();
    let ids = |target: usize| -> Vec<u64> {
        sparsify(&scene.graph_delta, target).nodes.iter().map(|node| node.id).collect()
    };
    let (few, some, many) = (ids(4), ids(9), ids(20));
    assert!(few.iter().all(|id| some.contains(id)));
    assert!(some.iter().all(|id| many.contains(id)));
    assert!(many.windows(2).all(|pair| pair[0] < pair[1]));
}

/// How far the warp of a part of a correction moves the anchors it lacks from where the
/// whole sends them, summed.
fn summed_anchor_error(whole: &GraphDelta3D<Double>, part: &GraphDelta3D<Double>) -> f64 {
    let full = whole.to_blend_arrays();
    let sparse = part.to_blend_arrays();
    let mut total = 0.0;
    for node in &whole.nodes {
        if part.nodes.contains(node) {
            continue;
        }
        let sent = |blend| {
            let (rotation, translation) = blend_at(blend, node.position, Some(node.ts));
            Transform { translation, rotation }.apply(node.position)
        };
        let (a, b) = (sent(&full), sent(&sparse));
        let (dx, dy, dz) = (a.x.0 - b.x.0, a.y.0 - b.y.0, a.z.0 - b.z.0);
        total += (dx * dx + dy * dy + dz * dz).sqrt();
    }
    total
}

#[test]
fn summed_anchor_error_stays_within_the_budget() {
    let scene = default_scene();
    let budget = 0.3;
    let thinned = sparsify_within_error(&scene.graph_delta, Double(budget), None);
    let total = summed_anchor_error(&scene.graph_delta, &thinned);
    assert!(thinned.len() < scene.graph_delta.len());
    assert!(total > 0.0 && total <= budget + 1e-9, "summed error {total}");
}

#[test]
fn no_further_drop_stays_within_the_budget() {
    let scene = default_scene();
    for budget in [0.05, 0.3, 2.0] {
        let thinned = sparsify_within_error(&scene.graph_delta, Double(budget), None);
        assert!(thinned.len() > 1);
        for slot in 0..thinned.len() {
            let mut fewer = thinned.clone();
            fewer.nodes.remove(slot);
            fewer.transforms.remove(slot);
            let total = summed_anchor_error(&scene.graph_delta, &fewer);
            assert!(total > budget - 1e-9, "without slot {slot} the error is {total}");
        }
    }
}

#[test]
fn larger_budget_keeps_a_subset() {
    let scene = default_scene();
    let ids = |budget: f64| -> Vec<u64> {
        let thinned = sparsify_within_error(&scene.graph_delta, Double(budget), None);
        thinned.nodes.iter().map(|node| node.id).collect()
    };
    let (tight, loose) = (ids(0.1), ids(0.8));
    assert!(loose.len() < tight.len());
    assert!(loose.iter().all(|id| tight.contains(id)));
}

#[test]
fn corrections_undo_the_drift_of_their_nodes() {
    let params = LoopParams::<Double>::default();
    let scene = generate_scene(&params);
    for (node, delta) in scene.graph_delta.nodes.iter().zip(&scene.graph_delta.transforms) {
        let back = delta.apply(node.position);
        let radius = (back.x.0 * back.x.0 + back.y.0 * back.y.0).sqrt();
        assert!((radius - 10.0).abs() < 1e-9);
        let angle = std::f64::consts::TAU * node.id as f64 / 48.0;
        assert!((back.x.0 - 10.0 * angle.cos()).abs() < 1e-9);
        assert!((back.y.0 - 10.0 * angle.sin()).abs() < 1e-9);
    }
    assert_eq!(scene.node_times.last(), Some(&Double(47.0)));
    assert_eq!(scene.cloud.len(), 48 * 60);
}

#[test]
fn rotations_keep_lengths_and_normalize() {
    let q = Quat::new(Double(1.0), Double(-2.0), Double(0.5), Double(3.0)).normalized_or_identity();
    let norm = q.x.0 * q.x.0 + q.y.0 * q.y.0 + q.z.0 * q.z.0 + q.w.0 * q.w.0;
    assert!((norm - 1.0).abs() < 1e-12);
    let v = vec3(0.3, -1.2, 2.5);
    let turned = q.rotate(v);
    let length = |v: Vec3<Double>| v.x.0 * v.x.0 + v.y.0 * v.y.0 + v.z.0 * v.z.0;
    assert!((length(turned) - length(v)).abs() < 1e-12);
    let back = q.conjugate().rotate(turned);
    assert!((back.x.0 - v.x.0).abs() < 1e-12);
    assert!((back.y.0 - v.y.0).abs() < 1e-12);
    assert!((back.z.0 - v.z.0).abs() < 1e-12);
}

#[test]
fn demo_buffers_follow_the_sliders() {
    let mut demo = DemoState::<Double>::init(1, 0);
    assert_eq!(demo.max_nodes(), 48);
    assert_eq!(demo.num_points(), 48 * 90);
    assert_eq!(demo.num_nodes(), 48);
    assert_eq!(demo.points().len(), 2 * demo.num_points());
    assert_eq!(demo.node_points().len(), 2 * 48);
    let times = demo.point_times().to_vec();
    assert!(times.iter().all(|&t| (0.0..=1.0).contains(&t)));
    assert!(times.iter().any(|&t| t == 1.0));

    // The buffers at alpha = 0 are the scene as it was generated.
    let scene = generate_scene(&demo_params::<Double>(1, 0));
    let flat: Vec<f32> = scene.cloud.points.iter().flat_map(|p| [p[0], p[1]]).collect();
    assert_eq!(demo.points(), &flat[..]);

    demo.warp(1.0, 12);
    assert_eq!(demo.num_nodes(), 12);
    assert_eq!(demo.max_nodes(), 48);
    assert_eq!(demo.point_times(), &times[..]);
    let closed = reform(&scene.cloud, &sparsify(&scene.graph_delta, 12).scaled(Double(1.0)));
    let flat: Vec<f32> = closed.points.iter().flat_map(|p| [p[0], p[1]]).collect();
    assert_eq!(demo.points(), &flat[..]);
    assert_eq!(demo.node_points().len(), 24);
}

#[test]
fn hallway_demo_carves_a_window() {
    let demo = DemoState::<Double>::init(7, 1);
    assert!(demo.num_points() >= 500);
    assert!(demo.num_points() < 48 * 120 + 500);
    assert_eq!(demo.num_nodes(), 48);
}

#[test]
fn rigid_deltas_keep_distances() {
    let delta = Transform {
        translation: vec3(2.0, -1.0, 0.5),
        rotation: Quat::new(Double(0.2), Double(0.4), Double(-0.1), Double(0.9))
            .normalized_or_identity(),
    };
    let (a, b) = (vec3(1.0, 2.0, 3.0), vec3(-4.0, 0.5, 7.0));
    let gap = |a: Vec3<Double>, b: Vec3<Double>| {
        let (dx, dy, dz) = (a.x.0 - b.x.0, a.y.0 - b.y.0, a.z.0 - b.z.0);
        (dx * dx + dy * dy + dz * dz).sqrt()
    };
    assert!((gap(delta.apply(a), delta.apply(b)) - gap(a, b)).abs() < 1e-12);
}

#[test]
fn standard_knobs() {
    let params = LoopParams::<Double>::default();
    assert_eq!((params.num_nodes, params.points_per_node, params.seed), (48, 60, 1));
    assert_eq!((params.radius, params.hallway_width), (Double(10.0), Double(6.0)));
    assert_eq!((params.drift_yaw, params.drift_shift), (Double(1.1), Double(2.5)));
    assert_eq!((params.sensor_spread, params.time_step_s), (Double(1.6), Double(1.0)));
    assert_eq!(params.window_tree_points, 0);
    let hallway = demo_params::<Double>(9, 1);
    assert_eq!((hallway.window_fraction, hallway.window_half), (Double(0.12), Double(0.02)));
    assert_eq!((hallway.tree_distance, hallway.tree_size), (Double(16.0), Double(3.5)));
    assert_eq!((hallway.seed, hallway.points_per_node), (9, 120));
    assert_eq!(two_node_delta().to_blend_arrays().sigma, Double(2.0));
    let lone = GraphDelta3D {
        nodes: vec![node(0, 0.0, Vec3::zero())],
        transforms: vec![Transform::identity()],
        ..GraphDelta3D::<Double>::default()
    };
    assert_eq!(lone.to_blend_arrays().sigma, Double(1e-6));
}

#[test]
fn nlerp_meets_its_ends_from_any_start() {
    let unit = |x: f64, y: f64, z: f64, w: f64| {
        Quat::new(Double(x), Double(y), Double(z), Double(w)).normalized_or_identity()
    };
    let (start, end) = (unit(0.1, 0.7, -0.2, 0.5), unit(-0.4, 0.3, 0.6, -0.9));
    let opposite = Quat::new(
        Double(-end.x.0),
        Double(-end.y.0),
        Double(-end.z.0),
        Double(-end.w.0),
    );
    let close = |a: Quat<Double>, b: Quat<Double>| {
        (a.x.0 - b.x.0).abs() + (a.y.0 - b.y.0).abs() + (a.z.0 - b.z.0).abs()
            + (a.w.0 - b.w.0).abs() < 1e-12
    };
    let dot = start.x.0 * end.x.0 + start.y.0 * end.y.0 + start.z.0 * end.z.0
        + start.w.0 * end.w.0;
    assert!(dot < 0.0);
    assert!(close(nlerp(start, end, Double(0.0)), start));
    assert!(close(nlerp(start, end, Double(1.0)), opposite));
    for amount in [-0.5, 0.25, 0.5, 1.75] {
        let one = nlerp(start, end, Double(amount));
        assert!(close(one, nlerp(start, opposite, Double(amount))));
        let norm = one.x.0 * one.x.0 + one.y.0 * one.y.0 + one.z.0 * one.z.0 + one.w.0 * one.w.0;
        assert!((norm - 1.0).abs() < 1e-12);
    }
}

#[test]
fn demo_without_nodes_shows_the_scene() {
    let mut demo = DemoState::<Double>::init(3, 0);
    let open = demo.points().to_vec();
    demo.warp(1.0, 48);
    assert_ne!(demo.points(), &open[..]);
    demo.warp(0.0, 7);
    assert_eq!(demo.points(), &open[..]);
    assert_eq!(demo.num_nodes(), 7);
    demo.warp(1.0, 0);
    assert_eq!(demo.points(), &open[..]);
    assert_eq!(demo.num_nodes(), 0);
}

#[test]
fn zero_vanishes_in_double_precision() {
    let finite = [0.0, -0.0, 1.0, -1.0, 2.5, -3e300, 5e-324, f64::MAX];
    let zeros = [Double(0.0), Double(-0.0)];
    for a in finite.map(Double) {
        assert!(a.mul(Double(0.0)).eq(Double(0.0)));
        for z in zeros {
            assert!(a.mul(z).eq(Double(0.0)) && z.mul(a).eq(Double(0.0)));
            assert!(a.add(z).eq(a) && z.add(a).eq(a));
            for y in zeros {
                assert!(y.sub(z).eq(Double(0.0)));
            }
        }
    }
    for a in [f64::INFINITY, f64::NEG_INFINITY, f64::NAN].map(Double) {
        assert!(!a.mul(Double(0.0)).eq(Double(0.0)));
    }
    assert!(Double(1.0).sqrt().eq(Double(1.0)));
    assert!(Double(1.0).div(Double(1.0)).eq(Double(1.0)));
    for stored in [0.0f32, -0.0, 1.5, -7.25e-30, f32::MAX] {
        assert_eq!(Double(f64::from(stored)).narrow(), stored);
    }
}

#[test]
fn open_loop_keeps_points_on_the_axes() {
    // Both signs of zero stay where they are.
    let cloud = PointCloud2::<Double> {
        points: vec![[0.0, -0.0, 5.0], [-0.0, -2.0, 0.0], [3.0, 0.0, -0.0]],
        timestamps: Some(vec![Double(0.0), Double(0.5), Double(1.0)]),
        ..PointCloud2::default()
    };
    let mut delta = two_node_delta();
    delta.transforms[0].translation = vec3(-4.0, -0.0, 1.0);
    delta.transforms[1].rotation =
        Quat::new(Double(-0.3), Double(0.2), Double(-0.1), Double(-0.9)).normalized_or_identity();
    let open = reform(&cloud, &delta.scaled(Double(0.0)));
    assert_eq!(open.points, cloud.points);
    assert_ne!(reform(&cloud, &delta).points, cloud.points);
}
