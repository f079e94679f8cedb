use rein::physics::broadphase::{candidate_pairs, GridEntry};
use rein::physics::narrowphase::{add_edge, expand_polytope, FaceFate};
use rein::physics::{
    all_spheres, detect_collision, fits_gpu_buffer, gpu_body_capacity, gpu_shape_code,
    is_gpu_compatible, readback_pair_count, route_narrowphase_pairs, should_use_gpu, step_path,
    BodyKind, CollisionPair, CollisionTest, ShapeKind, StepPath, GPU_BODY_THRESHOLD, MAX_PAIRS,
};

/// A sphere body as the grid sees it, with the cell size the grid would pick.
struct Ball {
    key: u64,
    kind: BodyKind,
    centre: (f32, f32, f32),
    radius: f32,
}

fn cell(v: f32, size: f32) -> i32 {
    (v / size).floor() as i32
}

/// The grid pass as the renderer runs it: cells sized from the largest box, candidate
/// pairs from the library, then the exact box-overlap test.
fn find_pairs(balls: &[Ball]) -> Vec<(u64, u64)> {
    let max_extent = balls.iter().fold(0.0f32, |m, b| m.max(2.0 * b.radius));
    let size = (max_extent * 2.0).max(1.0);
    let entries: Vec<GridEntry> = balls
        .iter()
        .map(|b| GridEntry {
            key: b.key,
            kind: b.kind,
            min_x: cell(b.centre.0 - b.radius, size),
            min_y: cell(b.centre.1 - b.radius, size),
            min_z: cell(b.centre.2 - b.radius, size),
            max_x: cell(b.centre.0 + b.radius, size),
            max_y: cell(b.centre.1 + b.radius, size),
            max_z: cell(b.centre.2 + b.radius, size),
        })
        .collect();
    let find = |k: u64| balls.iter().find(|b| b.key == k).unwrap();
    candidate_pairs(&entries)
        .into_iter()
        .filter(|&(a, b)| {
            let (a, b) = (find(a), find(b));
            (a.centre.0 - b.centre.0).abs() <= a.radius + b.radius
                && (a.centre.1 - b.centre.1).abs() <= a.radius + b.radius
                && (a.centre.2 - b.centre.2).abs() <= a.radius + b.radius
        })
        .collect()
}

fn ball(key: u64, kind: BodyKind, x: f32, z: f32, radius: f32) -> Ball {
    Ball { key, kind, centre: (x, 0.0, z), radius }
}

#[test]
fn test_broadphase_overlapping() {
    let pairs = find_pairs(&[
        ball(1, BodyKind::Dynamic, 0.0, 0.0, 1.0),
        ball(2, BodyKind::Dynamic, 1.0, 0.0, 1.0),
    ]);
    assert_eq!(pairs.len(), 1);
}

#[test]
fn test_broadphase_no_overlap() {
    let pairs = find_pairs(&[
        ball(1, BodyKind::Dynamic, 0.0, 0.0, 0.5),
        ball(2, BodyKind::Dynamic, 10.0, 0.0, 0.5),
    ]);
    assert!(pairs.is_empty());
}

#[test]
fn test_broadphase_static_static_skipped() {
    let pairs = find_pairs(&[
        ball(1, BodyKind::Static, 0.0, 0.0, 1.0),
        ball(2, BodyKind::Static, 0.0, 0.0, 1.0),
    ]);
    assert!(pairs.is_empty());
}

#[test]
fn test_broadphase_many_bodies() {
    let mut balls = Vec::new();
    for i in 0..10 {
        for j in 0..10 {
            balls.push(ball(i * 10 + j, BodyKind::Dynamic, i as f32 * 1.5, j as f32 * 1.5, 1.0));
        }
    }
    let pairs = find_pairs(&balls);
    assert!(!pairs.is_empty());
}

fn entry(key: u64, kind: BodyKind, min: (i32, i32, i32), max: (i32, i32, i32)) -> GridEntry {
    GridEntry {
        key,
        kind,
        min_x: min.0,
        min_y: min.1,
        min_z: min.2,
        max_x: max.0,
        max_y: max.1,
        max_z: max.2,
    }
}

#[test]
fn candidate_pairs_report_each_pair_once_smaller_key_first() {
    // The two boxes share eight cells; the pair is listed once.
    let entries = vec![
        entry(9, BodyKind::Dynamic, (0, 0, 0), (1, 1, 1)),
        entry(4, BodyKind::Dynamic, (0, 0, 0), (2, 2, 2)),
    ];
    assert_eq!(candidate_pairs(&entries), vec![(4, 9)]);
}

#[test]
fn candidate_pairs_need_a_shared_cell() {
    let entries = vec![
        entry(1, BodyKind::Dynamic, (0, 0, 0), (1, 1, 1)),
        entry(2, BodyKind::Dynamic, (2, 0, 0), (3, 1, 1)),
        entry(3, BodyKind::Dynamic, (1, 1, 1), (1, 1, 1)),
    ];
    let mut pairs = candidate_pairs(&entries);
    pairs.sort();
    assert_eq!(pairs, vec![(1, 3)]);
}

#[test]
fn candidate_pairs_need_a_dynamic_body() {
    let entries = vec![
        entry(1, BodyKind::Kinematic, (0, 0, 0), (0, 0, 0)),
        entry(2, BodyKind::Static, (0, 0, 0), (0, 0, 0)),
        entry(3, BodyKind::Kinematic, (0, 0, 0), (0, 0, 0)),
        entry(4, BodyKind::Dynamic, (0, 0, 0), (0, 0, 0)),
    ];
    let mut pairs = candidate_pairs(&entries);
    pairs.sort();
    assert_eq!(pairs, vec![(1, 4), (2, 4), (3, 4)]);
}

#[test]
fn candidate_pairs_ignore_empty_ranges_and_handle_extreme_cells() {
    let entries = vec![
        entry(1, BodyKind::Dynamic, (3, 0, 0), (2, 0, 0)),
        entry(2, BodyKind::Dynamic, (i32::MAX, i32::MIN, 0), (i32::MAX, i32::MIN, 0)),
        entry(3, BodyKind::Dynamic, (i32::MAX - 1, i32::MIN, 0), (i32::MAX, i32::MIN, 0)),
    ];
    assert_eq!(candidate_pairs(&entries), vec![(2, 3)]);
    assert!(candidate_pairs(&Vec::new()).is_empty());
}

#[test]
fn test_gpu_threshold() {
    assert!(!should_use_gpu(100));
    assert!(should_use_gpu(256));
    assert!(should_use_gpu(1000));
    assert!(!should_use_gpu(GPU_BODY_THRESHOLD - 1));
}

#[test]
fn dispatch_picks_the_specialised_tests() {
    assert_eq!(detect_collision(ShapeKind::Sphere, ShapeKind::Sphere), CollisionTest::SphereSphere);
    assert_eq!(detect_collision(ShapeKind::Box, ShapeKind::Box), CollisionTest::BoxBox);
    assert_eq!(detect_collision(ShapeKind::Box, ShapeKind::Sphere), CollisionTest::BoxSphere);
    assert_eq!(detect_collision(ShapeKind::Sphere, ShapeKind::Box), CollisionTest::SphereBox);
    assert_eq!(detect_collision(ShapeKind::Capsule, ShapeKind::Sphere), CollisionTest::GjkEpa);
    assert_eq!(detect_collision(ShapeKind::Box, ShapeKind::ConvexHull), CollisionTest::GjkEpa);
}

#[test]
fn readback_count_is_capped() {
    assert_eq!(readback_pair_count(&vec![]), 0);
    assert_eq!(readback_pair_count(&vec![17, 3]), 17);
    assert_eq!(readback_pair_count(&vec![MAX_PAIRS + 5]), MAX_PAIRS);
}

#[test]
fn routing_splits_pairs_between_gpu_and_cpu() {
    let shapes = vec![
        Some(ShapeKind::Sphere),
        Some(ShapeKind::Box),
        Some(ShapeKind::Box),
        None,
    ];
    let p = |a: u32, b: u32| CollisionPair { entity_a: a, entity_b: b };
    let pairs = vec![p(0, 1), p(1, 2), p(0, 3), p(1, 0), p(0, 9), p(0, 0)];
    let r = route_narrowphase_pairs(&pairs, &shapes, 2);
    assert_eq!(r.gpu_pairs, vec![p(0, 1), p(1, 0), p(0, 0)]);
    assert_eq!(r.cpu_pairs, vec![p(1, 2), p(0, 3)]);
    assert_eq!(r.gpu_count, 2);
    assert!(is_gpu_compatible(Some(ShapeKind::Box), Some(ShapeKind::Sphere)));
    assert!(!is_gpu_compatible(Some(ShapeKind::Box), Some(ShapeKind::Box)));
    assert!(!all_spheres(&shapes));
    assert!(all_spheres(&vec![Some(ShapeKind::Sphere); 3]));
}

#[test]
fn gpu_buffers_and_step_paths() {
    assert_eq!(gpu_body_capacity(10), 256);
    assert_eq!(gpu_body_capacity(1000), 1000);
    assert!(!fits_gpu_buffer(0, 256));
    assert!(fits_gpu_buffer(256, 256));
    assert!(!fits_gpu_buffer(257, 256));
    assert_eq!(gpu_shape_code(Some(ShapeKind::Sphere)), 0);
    assert_eq!(gpu_shape_code(Some(ShapeKind::Box)), 1);
    assert_eq!(gpu_shape_code(Some(ShapeKind::Capsule)), 255);
    assert_eq!(gpu_shape_code(None), 255);
    assert_eq!(step_path(false, 1000, true), StepPath::Cpu);
    assert_eq!(step_path(true, 255, true), StepPath::Cpu);
    assert_eq!(step_path(true, 256, true), StepPath::GpuDirect);
    assert_eq!(step_path(true, 300, false), StepPath::GpuMixed);
}

#[test]
fn horizon_edges_cancel_in_pairs() {
    let mut edges: Vec<[usize; 2]> = vec![[0, 1], [1, 2], [2, 0]];
    add_edge(&mut edges, 2, 1);
    // [1, 2] was the reverse: swap-removed, the last edge takes its place.
    assert_eq!(edges, vec![[0, 1], [2, 0]]);
    add_edge(&mut edges, 3, 4);
    assert_eq!(edges, vec![[0, 1], [2, 0], [3, 4]]);
    add_edge(&mut edges, 4, 3);
    assert_eq!(edges, vec![[0, 1], [2, 0]]);
    add_edge(&mut edges, 0, 1);
    assert_eq!(edges, vec![[0, 1], [2, 0], [0, 1]]);
}

#[test]
fn polytope_expansion_replaces_visible_faces() {
    // A tetrahedron; the new point 4 sees faces 1 and 3.
    let mut faces: Vec<[usize; 3]> = vec![[0, 1, 2], [0, 3, 1], [1, 3, 2], [2, 3, 0]];
    let fates = vec![FaceFate::Hidden, FaceFate::Visible, FaceFate::Hidden, FaceFate::Visible];
    expand_polytope(&mut faces, fates, 4);
    // Face 1 is swap-removed (face 3 takes its place and goes too); the edge 0-3 of
    // face 1 cancels against 3-0 of face 3. The horizon is closed to the new point.
    assert_eq!(
        faces,
        vec![[0, 1, 2], [1, 3, 2], [2, 3, 4], [3, 1, 4], [1, 0, 4], [0, 2, 4]]
    );
}
