use glam::{Vec2, Vec3};
use torus_grid_cutter::mesh::grid::{unfolded_grid_mesh, unfolded_grid_quads};
use torus_grid_cutter::mesh::half_edge::FaceId;

#[test]
fn grid_quads_column_by_column() {
    let q = unfolded_grid_quads(2, 3);
    assert_eq!(q.len(), 6);
    assert_eq!(q[0], (0, 4, 5, 1));
    assert_eq!(q[2], (2, 6, 7, 3));
    assert_eq!(q[3], (4, 8, 9, 5));
    assert_eq!(q[5], (6, 10, 11, 7));
    assert!(unfolded_grid_quads(0, 5).is_empty());
    assert!(unfolded_grid_quads(5, 0).is_empty());
}

#[test]
fn grid_mesh_is_a_disc() {
    let (ru, rv) = (24usize, 20usize);
    let n = (ru + 1) * (rv + 1);
    let positions: Vec<Vec3> = (0..n).map(|k| Vec3::new(k as f32, 0.0, 0.0)).collect();
    let uvs = vec![Vec2::ZERO; n];
    let mesh = unfolded_grid_mesh(&positions, &uvs, ru, rv);
    assert!(mesh.is_well_formed());
    assert!(mesh.validate());
    assert_eq!(mesh.num_valid_faces(), ru * rv);
    assert_eq!(mesh.face_half_edges(FaceId(0)).len(), 4);
    let s = mesh.compute_stats();
    assert_eq!(s.euler_characteristic, 1);
    assert_eq!(s.boundary_loops, 1);
    assert_eq!(s.boundary_half_edges, 2 * (ru + rv));
}
