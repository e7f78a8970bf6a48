//! Fixed-point runs: exact values of the number type, and of the library over it.

use fast_reform::fixed::{FULL_TURN, HALF_TURN, QUARTER_TURN, UNIT};
use fast_reform::order::sort_indices;
use fast_reform::sequence::{highest_slot, lowest_slot, sum};
use fast_reform::synthetic::{
    drift_at, generate_scene, inverse, path_at, scatter, square_perimeter, LoopParams, LoopShape,
    Rng,
};
use fast_reform::warp::{blend_at, mix, warp_one, weigh};
use fast_reform::{
    lerp_vec3, nlerp, reform, sparsify, sparsify_within_error, warp_positions, Fixed, GraphDelta3D,
    Node, PointCloud2, Quat, Reformer, Scalar, Transform, Vec3,
};

fn whole(n: i64) -> Fixed {
    Fixed { raw: n * UNIT }
}

fn halves(n: i64) -> Fixed {
    Fixed { raw: n * (UNIT / 2) }
}

/// A stored coordinate (16 binary places).
fn stored(n: i32) -> i32 {
    n * 0x1_0000
}

fn vec3(x: i64, y: i64, z: i64) -> Vec3<Fixed> {
    Vec3::new(whole(x), whole(y), whole(z))
}

fn shift_x(amount: i64) -> Transform<Fixed> {
    Transform { translation: vec3(amount, 0, 0), rotation: Quat::identity() }
}

fn node(id: u64, ts: i64, x: i64) -> Node<Fixed> {
    Node { id, ts: whole(ts), position: vec3(x, 0, 0) }
}

fn line(nodes: &[(u64, i64, i64, i64)]) -> GraphDelta3D<Fixed> {
    GraphDelta3D {
        nodes: nodes.iter().map(|&(id, ts, x, _)| node(id, ts, x)).collect(),
        transforms: nodes.iter().map(|&(_, _, _, shift)| shift_x(shift)).collect(),
        blend_sigma: whole(2),
        blend_time_sigma: whole(1),
    }
}

#[test]
fn fixed_sums_and_products_are_exact_or_rounded_down() {
    assert_eq!(whole(2).add(halves(1)), halves(5));
    assert_eq!(whole(2).sub(halves(5)), halves(-1));
    assert_eq!(halves(3).mul(halves(3)).raw, 9 * (UNIT / 4));
    assert_eq!(whole(1).div(whole(3)).raw, 1_431_655_765);
    assert_eq!(whole(-1).div(whole(3)).raw, -1_431_655_766);
    assert_eq!(whole(1).div(whole(-3)).raw, -1_431_655_766);
    assert_eq!(whole(-1).div(whole(3)).mul(whole(1).div(whole(3))).raw, -477_218_589);
    assert_eq!(halves(-3).abs(), halves(3));
    assert_eq!(halves(-3).neg(), halves(3));
    assert_eq!(Fixed::from_count(7), whole(7));
}

#[test]
fn fixed_results_are_held_at_the_ends_of_the_range() {
    let top = Fixed::infinity();
    assert_eq!(top.raw, i64::MAX);
    assert_eq!(top.add(whole(1)), top);
    assert_eq!(top.mul(whole(2)), top);
    assert_eq!(top.neg().sub(whole(2)).raw, i64::MIN);
    assert_eq!(Fixed { raw: i64::MIN }.neg(), top);
    assert_eq!(whole(1).div(whole(0)), top);
    assert_eq!(whole(-1).div(whole(0)).raw, i64::MIN);
    assert_eq!(whole(0).div(whole(0)), whole(0));
    assert_eq!(Fixed::from_count(u64::MAX), top);
}

#[test]
fn fixed_roots_and_remainders() {
    assert_eq!(whole(9).sqrt(), whole(3));
    assert_eq!(whole(2).sqrt().raw, 6_074_000_999);
    assert_eq!(whole(-4).sqrt(), whole(0));
    assert_eq!(halves(-1).floor(), whole(-1));
    assert_eq!(halves(5).floor(), whole(2));
    assert_eq!(halves(-1).rem_euclid(whole(1)), halves(1));
    assert_eq!(whole(7).rem_euclid(whole(-4)), whole(3));
    assert_eq!(whole(7).rem_euclid(whole(0)), whole(0));
    assert_eq!(halves(7).to_index(), 3);
    assert_eq!(whole(-3).to_index(), 0);
}

#[test]
fn fixed_exponentials_and_circular_functions() {
    assert_eq!(whole(0).exp(), whole(1));
    assert_eq!(whole(-1).exp().raw, 1_580_030_168);
    assert_eq!(Fixed { raw: -UNIT / 4 }.exp().raw, 3_344_923_892);
    assert_eq!(whole(2).exp().raw, 31_735_754_288);
    assert_eq!(whole(-40).exp(), whole(0));
    assert_eq!(whole(40).exp(), Fixed::infinity());
    assert_eq!(whole(1).sin().raw, 3_614_090_361);
    assert_eq!(whole(-1).sin().raw, -3_614_090_360);
    assert_eq!(Fixed { raw: QUARTER_TURN }.sin(), whole(1));
    assert_eq!(whole(0).cos(), whole(1));
    assert_eq!(Fixed { raw: HALF_TURN }.cos(), whole(-1));
    assert_eq!(Fixed::tau().raw, FULL_TURN);
}

#[test]
fn fixed_series_are_close_to_the_functions() {
    for step in -200..=200 {
        let x = Fixed { raw: step * (UNIT / 16) };
        let float = x.raw as f64 / UNIT as f64;
        let sine = float.sin() * UNIT as f64;
        assert!((x.sin().raw as f64 - sine).abs() < 16.0, "sine of {float}");
        let cosine = float.cos() * UNIT as f64;
        assert!((x.cos().raw as f64 - cosine).abs() < 16.0, "cosine of {float}");
        if step <= 0 {
            let power = float.exp() * UNIT as f64;
            assert!((x.exp().raw as f64 - power).abs() < 16.0, "exponential of {float}");
        }
    }
}

#[test]
fn fixed_comparisons_and_storage() {
    assert!(whole(1).lt(halves(3)));
    assert!(!whole(1).lt(whole(1)));
    assert!(whole(1).le(whole(1)));
    assert!(whole(1).eq(halves(2)));
    assert_eq!(whole(1).max(whole(2)), whole(2));
    assert_eq!(whole(1).min(whole(2)), whole(1));
    assert_eq!(halves(3).narrow(), 0x1_8000);
    assert_eq!(Fixed { raw: -1 }.narrow(), -1);
    assert_eq!(whole(100_000).narrow(), i32::MAX);
    assert_eq!(whole(-100_000).narrow(), i32::MIN);
    assert_eq!(Fixed::widen(0x1_8000), halves(3));
}

#[test]
fn extremes_are_the_first_of_their_kind() {
    let terms = [whole(3), whole(1), whole(4), whole(1), whole(4)];
    assert_eq!(lowest_slot(&terms), Some(1));
    assert_eq!(highest_slot(&terms), Some(2));
    assert_eq!(sum(&terms), whole(13));
    let nothing: [Fixed; 0] = [];
    assert_eq!(lowest_slot(&nothing), None);
    assert_eq!(highest_slot(&nothing), None);
    assert_eq!(sum(&nothing), whole(0));
    // Nothing compares below the bound itself.
    assert_eq!(lowest_slot(&[Fixed::infinity()]), None);
    assert_eq!(highest_slot(&[Fixed::infinity().neg()]), None);
}

#[test]
fn interpolation_meets_its_ends() {
    let (start, end) = (vec3(1, 2, 3), vec3(5, -2, 3));
    assert_eq!(lerp_vec3(start, end, whole(0)), start);
    assert_eq!(lerp_vec3(start, end, whole(1)), end);
    assert_eq!(lerp_vec3(start, end, halves(1)), vec3(3, 0, 3));
    assert_eq!(lerp_vec3(start, end, whole(2)), vec3(9, -6, 3));
}

#[test]
fn rotation_by_a_quarter_turn_and_back() {
    // (0, 0, 1, 1) normalizes to a quarter turn about z.
    let half_turn = Quat::new(whole(0), whole(0), whole(1), whole(0));
    assert_eq!(half_turn.rotate(vec3(1, 2, 3)), vec3(-1, -2, 3));
    assert_eq!(half_turn.conjugate().rotate(half_turn.rotate(vec3(1, 2, 3))), vec3(1, 2, 3));
    assert_eq!(half_turn.conjugate(), Quat::new(whole(0), whole(0), whole(-1), whole(0)));
    let long = Quat::new(whole(0), whole(0), whole(0), whole(4));
    assert_eq!(long.normalized_or_identity(), Quat::identity());
    let nothing = Quat::new(whole(0), whole(0), whole(0), whole(0));
    assert_eq!(nothing.normalized_or_identity(), Quat::identity());
}

#[test]
fn nlerp_takes_the_short_path() {
    // Both signs are one rotation, so nothing lies between them.
    let far_side = Quat::new(whole(0), whole(0), whole(0), whole(-1));
    assert_eq!(nlerp(Quat::identity(), far_side, halves(1)), Quat::identity());
    let half_turn = Quat::new(whole(0), whole(0), whole(1), whole(0));
    assert_eq!(nlerp(Quat::identity(), half_turn, whole(0)), Quat::identity());
    assert_eq!(nlerp(Quat::identity(), half_turn, whole(1)), half_turn);
}

#[test]
fn transforms_scale_between_identity_and_full() {
    let full = Transform {
        translation: vec3(4, 0, -2),
        rotation: Quat::new(whole(0), whole(0), whole(1), whole(0)),
    };
    assert_eq!(full.scaled_from_identity(whole(0)), Transform::identity());
    assert_eq!(full.scaled_from_identity(whole(1)), full);
    assert_eq!(full.scaled_from_identity(halves(1)).translation, vec3(2, 0, -1));
    assert_eq!(full.apply(vec3(1, 1, 1)), vec3(3, -1, -1));
    assert_eq!(inverse(&full).apply(full.apply(vec3(1, 1, 1))), vec3(1, 1, 1));
}

#[test]
fn bandwidths_are_configured_or_twice_the_spacing() {
    let mut delta = line(&[(0, 0, 0, 0), (1, 3, 10, 0), (2, 5, 14, 0)]);
    let blend = delta.to_blend_arrays();
    assert_eq!((blend.sigma, blend.time_sigma), (whole(2), whole(1)));
    delta.blend_sigma = whole(0);
    delta.blend_time_sigma = whole(-1);
    let blend = delta.to_blend_arrays();
    // Nearest neighbors are 10, 4 and 4 away in space, and 3, 2 and 2 in time.
    assert_eq!(blend.sigma, whole(18).div(whole(3)).mul(whole(2)));
    assert_eq!(blend.time_sigma, whole(7).div(whole(3)).mul(whole(2)));
    let lone = GraphDelta3D { blend_sigma: whole(0), ..line(&[(0, 0, 0, 0)]) };
    assert_eq!(lone.to_blend_arrays().sigma, whole(1).div(whole(1_000_000)));
    assert_eq!((blend.len(), blend.is_empty()), (3, false));
}

#[test]
fn weights_fall_off_and_shares_add_up() {
    assert_eq!(weigh(&[whole(0), whole(1)]), vec![whole(1), whole(-1).exp()]);
    let rotations = [Quat::identity(), Quat::identity()];
    let translations = [vec3(2, 0, 0), vec3(6, 4, -8)];
    let even = [whole(1), whole(1)];
    let (rotation, translation) = mix(&rotations, &translations, &even, &even);
    assert_eq!(rotation, Quat::identity());
    assert_eq!(translation, vec3(4, 2, -4));
    // Three to one.
    let (_, translation) = mix(&rotations, &translations, &even, &[whole(3), whole(1)]);
    assert_eq!(translation, vec3(3, 1, -2));
}

#[test]
fn opposite_signs_blend_as_one_rotation() {
    let half_turn = Quat::new(whole(0), whole(0), whole(1), whole(0));
    let other_sign = Quat::new(whole(0), whole(0), whole(-1), whole(0));
    let even = [whole(1), whole(1)];
    let still = [vec3(0, 0, 0), vec3(0, 0, 0)];
    let (rotation, _) = mix(&[half_turn, other_sign], &still, &even, &even);
    assert_eq!(rotation, half_turn);
}

#[test]
fn vanished_weights_leave_the_closest_delta() {
    let rotations = [Quat::identity(), Quat::identity(), Quat::identity()];
    let translations = [vec3(1, 0, 0), vec3(2, 0, 0), vec3(3, 0, 0)];
    let spreads = [whole(900), whole(700), whole(800)];
    let weights = weigh(&spreads);
    assert_eq!(weights, vec![whole(0), whole(0), whole(0)]);
    let (_, translation) = mix(&rotations, &translations, &spreads, &weights);
    assert_eq!(translation, vec3(2, 0, 0));
    // Where no spread can be compared, the leader stands in.
    let beyond = [Fixed::infinity(), Fixed::infinity(), Fixed::infinity()];
    let (_, translation) = mix(&rotations, &translations, &beyond, &weights);
    assert_eq!(translation, vec3(1, 0, 0));
}

#[test]
fn far_point_takes_its_nearest_delta_in_fixed_point() {
    let blend = line(&[(0, 0, 0, 0), (1, 1, 10, 6)]).to_blend_arrays();
    assert_eq!(blend_at(&blend, vec3(60, 0, 0), None).1, vec3(6, 0, 0));
    assert_eq!(blend_at(&blend, vec3(-60, 0, 0), None).1, vec3(0, 0, 0));
    // Equally far in space: the node that is nearer in time.
    assert_eq!(blend_at(&blend, vec3(5, 60, 0), Some(whole(2))).1, vec3(6, 0, 0));
    assert_eq!(blend_at(&blend, vec3(5, 60, 0), Some(whole(-2))).1, vec3(0, 0, 0));
}

#[test]
fn lone_node_moves_everything_alike() {
    let delta = line(&[(0, 0, 0, 5)]);
    let blend = delta.to_blend_arrays();
    assert_eq!(warp_one([stored(1), stored(2), stored(3)], None, &blend), [
        stored(6),
        stored(2),
        stored(3),
    ]);
    assert_eq!(warp_one([stored(900), 0, 0], Some(whole(77)), &blend), [stored(905), 0, 0]);
}

#[test]
fn halfway_point_gets_the_mean_shift() {
    let delta = line(&[(0, 0, 0, 0), (1, 0, 10, 6)]);
    let cloud = PointCloud2::<Fixed> {
        points: vec![[stored(5), stored(1), 0]],
        ..PointCloud2::default()
    };
    assert_eq!(reform(&cloud, &delta).points, vec![[stored(8), stored(1), 0]]);
}

#[test]
fn every_point_keeps_its_place_in_the_sequence() {
    let blend = line(&[(0, 0, 0, 5)]).to_blend_arrays();
    let points: Vec<[i32; 3]> = (0..5000).map(|i| [i, -i, 2 * i]).collect();
    let warped = warp_positions::<Fixed>(&points, None, &blend);
    assert_eq!(warped.len(), points.len());
    for (before, after) in points.iter().zip(&warped) {
        assert_eq!(*after, [before[0] + stored(5), before[1], before[2]]);
    }
}

#[test]
fn points_are_warped_by_themselves() {
    let blend = line(&[(0, 0, 0, 0), (1, 1, 10, 6), (2, 2, 20, -3)]).to_blend_arrays();
    let points: Vec<[i32; 3]> = (0..40).map(|i| [i * 31_000, i * 700, 0]).collect();
    let times: Vec<Fixed> = (0..40).map(|i| Fixed { raw: i * (UNIT / 20) }).collect();
    let together = warp_positions(&points, Some(&times[..]), &blend);
    let mut apart = warp_positions(&points[..17], Some(&times[..17]), &blend);
    apart.extend(warp_positions(&points[17..], Some(&times[17..]), &blend));
    assert_eq!(together, apart);
    assert_eq!(warp_positions::<Fixed>(&[], None, &blend), Vec::<[i32; 3]>::new());
}

#[test]
fn untimed_points_ignore_the_node_times() {
    let early = line(&[(0, 0, 0, 0), (1, 1, 10, 6)]).to_blend_arrays();
    let late = line(&[(0, 70, 0, 0), (1, 90, 10, 6)]).to_blend_arrays();
    let points: Vec<[i32; 3]> = (0..11).map(|i| [stored(i), 0, 0]).collect();
    assert_eq!(
        warp_positions::<Fixed>(&points, None, &early),
        warp_positions::<Fixed>(&points, None, &late)
    );
    let times = [whole(0); 11];
    assert_ne!(
        warp_positions(&points, Some(&times[..]), &early),
        warp_positions::<Fixed>(&points, None, &early)
    );
}

#[test]
fn redundant_node_is_dropped_first() {
    // The two left nodes agree; the outer one is rebuilt best by its neighbor.
    let delta = line(&[(7, 0, 0, 0), (8, 0, 1, 0), (9, 0, 6, 6)]);
    let thinned = sparsify(&delta, 2);
    assert_eq!(thinned.nodes, vec![delta.nodes[1], delta.nodes[2]]);
    assert_eq!(thinned.transforms, vec![delta.transforms[1], delta.transforms[2]]);
    assert_eq!(thinned.blend_sigma, delta.blend_sigma);
    assert_eq!(sparsify(&delta, 1).len(), 1);
    assert_eq!(sparsify(&delta, 0).nodes, vec![]);
    assert_eq!(sparsify(&delta, 0).transforms, vec![]);
    assert_eq!(sparsify(&delta, 0).blend_sigma, delta.blend_sigma);
    assert_eq!(sparsify(&delta, 3), delta);
    let empty = GraphDelta3D::<Fixed>::default();
    assert_eq!(sparsify(&empty, 0), empty);
}

#[test]
fn equal_deltas_thin_to_one_node_without_error() {
    let delta = line(&[(1, 0, 0, 3), (2, 1, 4, 3), (3, 2, 8, 3), (4, 3, 12, 3)]);
    let budget = whole(1).div(whole(1000));
    let thinned = sparsify_within_error(&delta, budget, None);
    assert_eq!(thinned.len(), 1);
    // A lone node is passed through.
    assert_eq!(sparsify_within_error(&thinned, whole(-1), None), thinned);
}

#[test]
fn negative_budget_drops_nothing() {
    let delta = line(&[(1, 0, 0, 3), (2, 1, 4, 3), (3, 2, 8, 3)]);
    assert_eq!(sparsify_within_error(&delta, whole(-1), None).len(), 3);
    // A seed is restored node by node.
    assert_eq!(sparsify_within_error(&delta, whole(-1), Some(&[2])).len(), 3);
}

#[test]
fn seeds_start_warm_or_cold() {
    let delta = line(&[(1, 0, 0, 0), (2, 1, 4, 1), (3, 2, 8, 4), (4, 3, 12, 9)]);
    let budget = whole(1);
    let cold = sparsify_within_error(&delta, budget, None);
    assert_eq!(sparsify_within_error(&delta, budget, Some(&[70, 71])), cold);
    let kept: Vec<u64> = cold.nodes.iter().map(|node| node.id).collect();
    assert_eq!(sparsify_within_error(&delta, budget, Some(&kept)), cold);
    assert_eq!(sparsify_within_error(&delta, budget, Some(&[1, 2, 3, 4])), cold);
}

#[test]
fn reformer_thins_from_the_full_correction() {
    let delta = line(&[(1, 0, 0, 0), (2, 1, 4, 1), (3, 2, 8, 4), (4, 3, 12, 9)]);
    let mut reformer = Reformer::new(delta.duplicate());
    assert!(!reformer.is_empty());
    reformer.sparsify(1);
    assert_eq!(reformer.kept_ids().len(), 1);
    reformer.sparsify(3);
    assert_eq!(reformer.graph_delta(), &sparsify(&delta, 3));
    assert_eq!(reformer.blend().len(), 3);
    assert_eq!(reformer.full_delta(), &delta);
    reformer.set_delta(delta.duplicate());
    assert_eq!(reformer.kept_ids(), vec![1, 2, 3, 4]);
    let points = [[stored(5), 0, 0]];
    assert_eq!(
        reformer.apply_positions(&points, None),
        warp_positions::<Fixed>(&points, None, &delta.to_blend_arrays())
    );
    let budget = whole(1);
    reformer.sparsify_within_error(budget);
    let kept = reformer.kept_ids();
    let update = line(&[(1, 0, 0, 0), (2, 1, 4, 2), (3, 2, 8, 5), (4, 3, 12, 9)]);
    reformer.update_within_error(update.duplicate(), budget);
    assert_eq!(reformer.graph_delta(), &sparsify_within_error(&update, budget, Some(&kept)));
    assert_eq!(reformer.full_delta(), &update);
    assert!(Reformer::new(GraphDelta3D::<Fixed>::default()).is_empty());
}

#[test]
fn generator_draws_the_split_mix_sequence() {
    let mut rng = Rng::new(0);
    assert_eq!(rng.next_bits(), 0x6E78_9E6A_A1B9_65F4);
    assert_eq!(rng.next_bits(), 0x06C4_5D18_8009_454F);
    assert_eq!(rng.next_bits(), 0xF88B_B8A8_724C_81EC);
    let mut rng = Rng::new(1);
    let first: Fixed = rng.next_01();
    assert_eq!(first.raw, 0xBEEB_8DA1);
    let second: Fixed = rng.next_unit();
    assert_eq!(second.raw, 2 * 0xF893_A2EE - UNIT);
}

#[test]
fn square_walks_its_perimeter() {
    let radius = whole(10);
    let (corner, tangent) = square_perimeter(radius, whole(0));
    assert_eq!((corner, tangent), (vec3(10, -10, 0), vec3(0, 1, 0)));
    let (center, tangent) = square_perimeter(radius, Fixed { raw: UNIT / 8 });
    assert_eq!((center, tangent), (vec3(10, 0, 0), vec3(0, 1, 0)));
    assert_eq!(square_perimeter(radius, Fixed { raw: UNIT / 4 }).0, vec3(10, 10, 0));
    assert_eq!(square_perimeter(radius, halves(1)).1, vec3(0, -1, 0));
    // A full lap is back at the start, and so is one lap before.
    assert_eq!(square_perimeter(radius, whole(1)), square_perimeter(radius, whole(0)));
    assert_eq!(square_perimeter(radius, halves(-1)), square_perimeter(radius, halves(1)));
}

#[test]
fn circle_starts_on_the_x_axis() {
    let params = LoopParams::<Fixed>::default();
    let (center, tangent) = path_at(&params, whole(0));
    assert_eq!((center, tangent), (vec3(10, 0, 0), vec3(0, 1, 0)));
    assert_eq!(drift_at(&params, whole(0)), Transform::identity());
    assert_eq!(drift_at(&params, whole(1)).translation.x, halves(5));
}

#[test]
fn scatter_draws_two_or_three_numbers() {
    let circle = LoopParams::<Fixed>::default();
    let mut rng = Rng::new(5);
    let mut same = Rng::new(5);
    let offset = scatter(&circle, whole(0), vec3(10, 0, 0), &mut rng);
    let (x, y): (Fixed, Fixed) = (same.next_unit(), same.next_unit());
    assert_eq!(offset.x, x.mul(circle.sensor_spread));
    assert_eq!(offset.y, y.mul(circle.sensor_spread));
    assert_eq!(rng.state, same.state);
    let square = LoopParams { shape: LoopShape::Square, ..circle };
    scatter(&square, whole(0), vec3(10, -10, 0), &mut rng);
    for _ in 0..3 {
        same.next_bits();
    }
    assert_eq!(rng.state, same.state);
}

#[test]
fn scene_has_a_delta_per_node_and_a_time_per_point() {
    let params =
        LoopParams::<Fixed> { num_nodes: 6, points_per_node: 5, ..LoopParams::default() };
    let scene = generate_scene(&params);
    assert_eq!(scene.graph_delta.len(), 6);
    assert_eq!(scene.graph_delta.transforms.len(), 6);
    assert_eq!(scene.node_positions.len(), 6);
    assert_eq!(scene.cloud.len(), 30);
    assert_eq!(scene.cloud.timestamps.as_ref().map(|times| times.len()), Some(30));
    assert_eq!(scene.cloud.frame_id, "map");
    assert_eq!(scene.cloud.intensities, None);
    let ids: Vec<u64> = scene.graph_delta.nodes.iter().map(|node| node.id).collect();
    assert_eq!(ids, vec![0, 1, 2, 3, 4, 5]);
    assert_eq!(scene.graph_delta.nodes[0].position, vec3(10, 0, 0));
    assert_eq!(scene.node_positions[0], [stored(10), 0, 0]);
    assert_eq!(scene.node_times[0], whole(0));
}

#[test]
fn open_loop_moves_nothing_in_fixed_point() {
    let params =
        LoopParams::<Fixed> { num_nodes: 6, points_per_node: 5, ..LoopParams::default() };
    let scene = generate_scene(&params);
    let open = reform(&scene.cloud, &scene.graph_delta.scaled(whole(0)));
    assert_eq!(open, scene.cloud);
}

#[test]
fn window_leaves_a_gap_and_adds_a_tree() {
    let params = LoopParams::<Fixed> {
        shape: LoopShape::Square,
        num_nodes: 8,
        points_per_node: 20,
        window_tree_points: 12,
        window_fraction: Fixed { raw: UNIT / 8 },
        window_half: Fixed { raw: UNIT / 10 },
        tree_distance: whole(16),
        tree_size: whole(2),
        ..LoopParams::default()
    };
    let scene = generate_scene(&params);
    let count = scene.cloud.len();
    assert!(count >= 12 && count < 8 * 20 + 12, "{count} points");
    // Every return from the tree is seen at one instant.
    let times = scene.cloud.timestamps.as_ref().unwrap();
    assert!(times[count - 12..].iter().all(|&t| t == times[count - 1]));
    let whole_walls = LoopParams { window_tree_points: 0, ..params };
    assert_eq!(generate_scene(&whole_walls).cloud.len(), 160);
}

#[test]
fn turning_is_additive_and_blind_to_the_sign() {
    let third_turn = Quat::new(halves(1), halves(1), halves(1), halves(1));
    let other_sign = Quat::new(halves(-1), halves(-1), halves(-1), halves(-1));
    let (a, b) = (vec3(1, 2, 3), vec3(-4, 0, 7));
    // A third of a turn about the diagonal cycles the coordinates.
    assert_eq!(third_turn.rotate(a), vec3(3, 1, 2));
    assert_eq!(third_turn.rotate(b), vec3(7, -4, 0));
    assert_eq!(third_turn.rotate(vec3(-3, 2, 10)), vec3(10, -3, 2));
    assert_eq!(other_sign.rotate(a), third_turn.rotate(a));
    assert_eq!(Quat::identity().rotate(a), a);
    assert_eq!(third_turn.normalized_or_identity(), third_turn);
}

#[test]
fn worst_missed_node_is_restored_first() {
    let delta = line(&[(1, 0, 0, 0), (2, 0, 4, 0), (3, 0, 40, 9)]);
    let budget = whole(1).div(whole(1000));
    let thinned = sparsify_within_error(&delta, budget, Some(&[1]));
    assert_eq!(thinned.nodes, vec![delta.nodes[0], delta.nodes[2]]);
    assert_eq!(thinned.transforms, vec![delta.transforms[0], delta.transforms[2]]);
}

#[test]
fn draws_lie_between_zero_and_one() {
    let mut rng = Rng::new(42);
    for _ in 0..1000 {
        let drawn: Fixed = rng.next_01();
        assert!(whole(0).le(drawn) && drawn.lt(whole(1)));
        let unit: Fixed = rng.next_unit();
        assert!(whole(-1).le(unit) && unit.lt(whole(1)));
    }
}

#[test]
fn fractions_are_rounded_down_or_held() {
    assert_eq!(Fixed::from_ratio(3, 2), halves(3));
    assert_eq!(Fixed::from_ratio(1, 3).raw, 1_431_655_765);
    assert_eq!(Fixed::from_ratio(u64::MAX, u64::MAX), whole(1));
    assert_eq!(Fixed::from_ratio(u64::MAX, 1), Fixed::infinity());
    assert_eq!(Fixed::from_ratio(1, 0), Fixed::infinity());
    assert_eq!(Fixed::from_ratio(0, 0), whole(0));
}

#[test]
fn blend_arrays_are_sorted_by_time() {
    let turn = Quat::new(whole(0), whole(0), whole(1), whole(0));
    let delta = GraphDelta3D {
        nodes: vec![node(5, 1, 10), node(6, 0, 0), node(7, 1, 20), node(8, 0, 30)],
        transforms: vec![
            shift_x(1),
            Transform { translation: vec3(2, 0, 0), rotation: turn },
            shift_x(3),
            shift_x(4),
        ],
        blend_sigma: whole(1),
        blend_time_sigma: whole(1),
    };
    let blend = delta.to_blend_arrays();
    assert_eq!(blend.times, vec![whole(0), whole(0), whole(1), whole(1)]);
    assert_eq!(blend.positions, vec![
        vec3(0, 0, 0),
        vec3(30, 0, 0),
        vec3(10, 0, 0),
        vec3(20, 0, 0),
    ]);
    assert_eq!(blend.rotations[0], turn);
    assert_eq!(blend.rotations[1], Quat::identity());
    assert_eq!(blend.translations, vec![
        vec3(2, 0, 0),
        vec3(4, 0, 0),
        vec3(1, 0, 0),
        vec3(3, 0, 0),
    ]);
    // The correction itself stays as it was.
    assert_eq!(delta.nodes[0].id, 5);
    let copy = blend.duplicate();
    assert_eq!((copy.times, copy.sigma), (blend.times, blend.sigma));
}

#[test]
fn stable_order_keeps_ties_and_sorted_keys() {
    let keys = [whole(3), whole(1), whole(2), whole(1), whole(3)];
    assert_eq!(sort_indices(&keys), vec![1, 3, 2, 0, 4]);
    assert_eq!(sort_indices(&[whole(1), whole(1), whole(2)]), vec![0, 1, 2]);
    assert_eq!(sort_indices::<Fixed>(&[]), Vec::<usize>::new());
}

#[test]
fn shuffled_nodes_warp_alike() {
    let sorted = line(&[(0, 0, 0, 0), (1, 1, 10, 6), (2, 2, 20, -3)]);
    let shuffled = line(&[(2, 2, 20, -3), (0, 0, 0, 0), (1, 1, 10, 6)]);
    let points: Vec<[i32; 3]> = (0..21).map(|i| [stored(i), 0, 0]).collect();
    assert_eq!(
        warp_positions::<Fixed>(&points, None, &sorted.to_blend_arrays()),
        warp_positions::<Fixed>(&points, None, &shuffled.to_blend_arrays())
    );
}

#[test]
fn emptied_correction_is_a_pass_through() {
    let delta = line(&[(1, 0, 0, 3), (2, 1, 4, 3)]);
    let cloud = PointCloud2::<Fixed> { points: vec![[stored(1), 2, 3]], ..PointCloud2::default() };
    let mut reformer = Reformer::new(delta);
    reformer.sparsify(0);
    assert!(reformer.is_empty());
    assert_eq!(reformer.kept_ids(), Vec::<u64>::new());
    assert_eq!(reformer.apply(&cloud), cloud);
    // The full correction is still there to thin from.
    let copy = reformer.clone();
    reformer.sparsify_within_error(whole(-1));
    assert_eq!(reformer.kept_ids(), vec![1, 2]);
    assert!(copy.is_empty());
    assert_eq!(copy.full_delta(), reformer.full_delta());
}

#[test]
fn nearer_nodes_have_the_larger_weight() {
    let blend = line(&[(0, 0, 0, 0), (1, 4, 10, 6)]).to_blend_arrays();
    // Nearer to the first in space and time: less than half of the shift.
    let shift = blend_at(&blend, vec3(4, 0, 0), Some(whole(1))).1.x;
    assert!(whole(0).lt(shift) && shift.lt(whole(3)));
    let shift = blend_at(&blend, vec3(6, 0, 0), Some(whole(3))).1.x;
    assert!(whole(3).lt(shift) && shift.lt(whole(6)));
}

#[test]
fn fixed_point_warp_does_not_fold_between_anchors() {
    let blend = line(&[(0, 0, 0, 0), (1, 1, 10, 6)]).to_blend_arrays();
    let mut previous = whole(-1);
    for step in 0..=40 {
        let x = Fixed { raw: step * (UNIT / 4) };
        let time = x.div(whole(10));
        let (_, shift) = blend_at(&blend, Vec3::new(x, whole(0), whole(0)), Some(time));
        let output = x.add(shift.x);
        assert!(previous.lt(output));
        previous = output;
    }
}

#[test]
fn thinning_drops_whatever_still_fits() {
    // Two groups, far apart in time: the middle shift of the first is no loss, and one
    // node of the second costs just the budget.
    let delta = GraphDelta3D {
        blend_sigma: whole(1),
        ..line(&[(1, 0, 0, 0), (2, 0, 0, -2), (3, 0, 0, 2), (4, 100, 0, -3), (5, 100, 0, 3)])
    };
    let ids = |budget: i64| -> Vec<u64> {
        let thinned = sparsify_within_error(&delta, whole(budget), None);
        thinned.nodes.iter().map(|node| node.id).collect()
    };
    assert_eq!(ids(0), [2, 3, 4, 5]);
    assert_eq!(ids(3), [2, 3, 5]);
    assert_eq!(ids(4), [2, 3]);
    // The choice does not rest on the anchor of the dropped node alone.
    let without = |dropped: &[u64]| -> i64 {
        let blend = GraphDelta3D {
            nodes: delta.nodes.iter().filter(|n| !dropped.contains(&n.id)).copied().collect(),
            transforms: delta
                .nodes
                .iter()
                .zip(&delta.transforms)
                .filter(|(n, _)| !dropped.contains(&n.id))
                .map(|(_, t)| *t)
                .collect(),
            ..delta.duplicate()
        }
        .to_blend_arrays();
        let misses: Vec<Fixed> = delta
            .nodes
            .iter()
            .filter(|n| dropped.contains(&n.id))
            .map(|n| blend_at(&blend, n.position, Some(n.ts)).1.x.abs())
            .collect();
        sum(&misses).raw
    };
    assert_eq!(without(&[1, 4]), 3 * UNIT);
    assert_eq!(without(&[1, 4, 5]), 4 * UNIT);
    assert!(without(&[1, 4, 2]) > 3 * UNIT && without(&[1, 4, 3]) > 3 * UNIT);
}

#[test]
fn dropped_anchors_go_where_the_error_was_measured() {
    // Dropping the middle node of three leaves its anchor halfway between the others.
    let delta = line(&[(1, 0, 0, 0), (2, 1, 4, 2), (3, 2, 8, 4)]);
    let thinned = sparsify_within_error(&delta, Fixed { raw: UNIT / 1000 }, None);
    assert_eq!(thinned.nodes, vec![delta.nodes[0], delta.nodes[2]]);
    let blend = thinned.to_blend_arrays();
    let (rotation, translation) = blend_at(&blend, delta.nodes[1].position, Some(whole(1)));
    assert_eq!(rotation, Quat::identity());
    assert!((translation.x.raw - 2 * UNIT).abs() <= 8);
}

#[test]
fn walls_leave_the_window_clear() {
    let params = LoopParams::<Fixed> {
        shape: LoopShape::Square,
        num_nodes: 8,
        points_per_node: 20,
        window_tree_points: 12,
        window_fraction: Fixed { raw: UNIT / 8 },
        window_half: Fixed { raw: UNIT / 10 },
        ..LoopParams::default()
    };
    let scene = generate_scene(&params);
    let times = scene.cloud.timestamps.as_ref().unwrap();
    let walls = times.len() - 12;
    assert!(walls > 0);
    // A node every eighth of the way, one time unit apart.
    for time in &times[..walls] {
        let off = time.div(whole(8)).sub(Fixed { raw: UNIT / 8 }).abs();
        assert!(off.min(whole(1).sub(off)).raw >= UNIT / 10 - 8);
    }
}
