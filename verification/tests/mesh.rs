use rein::mesh::{
    cap_indices, cylinder_side_vertex_count, grid_indices, indices_below, quad_face_indices,
    rebase_indices, side_indices, sphere_resolution,
};
use rein::terrain::{
    effective_resolution, heightmap_index, neighbour_indices, terrain_indices, TerrainLod,
};

#[test]
fn grid_and_faces() {
    assert_eq!(grid_indices(1, 2, 3), vec![0, 3, 1, 1, 3, 4, 1, 4, 2, 2, 4, 5]);
    assert_eq!(grid_indices(0, 5, 6), Vec::<u32>::new());
    assert_eq!(quad_face_indices(2), vec![0, 1, 2, 0, 2, 3, 4, 5, 6, 4, 6, 7]);
    assert_eq!(side_indices(10, 2), vec![10, 12, 11, 11, 12, 13, 12, 14, 13, 13, 14, 15]);
    assert_eq!(cap_indices(5, 2, true), vec![5, 6, 7, 5, 7, 8]);
    assert_eq!(cap_indices(5, 2, false), vec![5, 7, 6, 5, 8, 7]);
}

#[test]
fn index_helpers() {
    assert_eq!(rebase_indices(&vec![0, 1, 2], 10), vec![10, 11, 12]);
    assert_eq!(indices_below(&vec![3, 9, 1, 4], 4), vec![3, 1]);
    assert_eq!(sphere_resolution(1, 1), (3, 2));
    assert_eq!(sphere_resolution(16, 8), (16, 8));
    assert_eq!(cylinder_side_vertex_count(2), 8);
    assert_eq!(cylinder_side_vertex_count(8), 18);
}

#[test]
fn terrain_grid() {
    assert_eq!(TerrainLod::High.step_multiplier(), 1);
    assert_eq!(TerrainLod::Medium.step_multiplier(), 2);
    assert_eq!(TerrainLod::Low.step_multiplier(), 4);
    assert_eq!(effective_resolution(64, TerrainLod::Medium), 32);
    assert_eq!(effective_resolution(6, TerrainLod::Low), 2);
    assert_eq!(effective_resolution(0, TerrainLod::High), 2);
    let t = terrain_indices(3);
    assert_eq!(t.len(), 24);
    assert_eq!(&t[..6], &[0, 3, 1, 1, 3, 4]);
    assert_eq!(neighbour_indices(0, 0, 3), [0, 1, 0, 3]);
    assert_eq!(neighbour_indices(1, 1, 3), [3, 5, 1, 7]);
    assert_eq!(neighbour_indices(2, 2, 3), [7, 8, 5, 8]);
    assert_eq!(heightmap_index(5, 1, 4, 3), 7);
    assert_eq!(heightmap_index(9, 9, 4, 3), 11);
}
