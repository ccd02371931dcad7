use glam::{Vec2, Vec3};
use std::f64::consts::PI;
use torus_grid_cutter::mesh::cut::{cut_mesh_by_grid, TriangleIntersection};
use torus_grid_cutter::mesh::half_edge::{FaceId, HalfEdgeId, HalfEdgeMesh};

fn torus_position(u: f64, v: f64, major_r: f64, minor_r: f64) -> Vec3 {
    let rr = major_r + minor_r * v.cos();
    Vec3::new(
        rr as f32 * u.cos() as f32,
        rr as f32 * u.sin() as f32,
        minor_r as f32 * v.sin() as f32,
    )
}

fn closed_torus_mesh(res_u: usize, res_v: usize, r: f64, r_minor: f64) -> HalfEdgeMesh {
    let mut positions = Vec::new();
    let mut uvs = Vec::new();
    for i in 0..res_u {
        for j in 0..res_v {
            let u = 2.0 * PI * i as f64 / res_u as f64;
            let v = 2.0 * PI * j as f64 / res_v as f64;
            positions.push(torus_position(u, v, r, r_minor));
            uvs.push(Vec2::new(u as f32, v as f32));
        }
    }
    let mut quads = Vec::new();
    for i in 0..res_u {
        for j in 0..res_v {
            let a = i * res_v + j;
            let b = i * res_v + (j + 1) % res_v;
            let c = ((i + 1) % res_u) * res_v + (j + 1) % res_v;
            let d = ((i + 1) % res_u) * res_v + j;
            quads.push((a, b, c, d));
        }
    }
    HalfEdgeMesh::from_quads(&positions, &uvs, &quads)
}

/// The open (unfolded) torus grid: `(res_u + 1) x (res_v + 1)` vertices and
/// no quads across the seams.
fn unfolded_quad_mesh(major_r: f64, minor_r: f64, res_u: usize, res_v: usize) -> HalfEdgeMesh {
    let nu = res_u + 1;
    let nv = res_v + 1;
    let mut positions = Vec::new();
    let mut uvs = Vec::new();
    for i in 0..nu {
        let u = 2.0 * PI * i as f64 / res_u as f64;
        for j in 0..nv {
            let v = 2.0 * PI * j as f64 / res_v as f64;
            positions.push(torus_position(u, v, major_r, minor_r));
            uvs.push(Vec2::new(u as f32, v as f32));
        }
    }
    let mut quads = Vec::new();
    for i in 0..res_u {
        for j in 0..res_v {
            quads.push((i * nv + j, (i + 1) * nv + j, (i + 1) * nv + (j + 1), i * nv + (j + 1)));
        }
    }
    HalfEdgeMesh::from_quads(&positions, &uvs, &quads)
}

/// Surface area and signed volume from a fan of each valid face (the
/// floating-point part of the statistics, which the program computes).
fn area_and_volume(mesh: &HalfEdgeMesh) -> (f64, f64) {
    let mut area = 0.0f64;
    let mut volume = 0.0f64;
    for fi in 0..mesh.faces.len() {
        if !mesh.faces[fi].valid {
            continue;
        }
        let hes = mesh.face_half_edges(FaceId(fi));
        if hes.len() < 3 {
            continue;
        }
        let p = |h: HalfEdgeId| mesh.vertices[mesh.half_edges[h.0].origin.0].position;
        let v0 = p(hes[0]);
        for w in hes.windows(2).skip(1) {
            let (v1, v2) = (p(w[0]), p(w[1]));
            area += ((v1 - v0).cross(v2 - v0).length() as f64) * 0.5;
            volume += (v0.dot(v1.cross(v2)) as f64) / 6.0;
        }
    }
    (area, volume)
}

#[test]
fn test_closed_torus_stats() {
    let mesh = closed_torus_mesh(48, 40, 2.0, 0.6);
    let s = mesh.compute_stats();

    assert!(s.is_closed, "a closed torus grid is watertight");
    assert_eq!(s.boundary_half_edges, 0);
    assert_eq!(s.euler_characteristic, 0, "a closed torus has Euler characteristic 0");
    assert_eq!(s.degree_sum as f64 / s.polygon_faces as f64, 4.0);
    assert_eq!(s.boundary_loops, 0);
    assert_eq!(s.vertices, 48 * 40);
    assert_eq!(s.faces, 48 * 40);
    assert_eq!(s.edges, 2 * 48 * 40);
    let (area, volume) = area_and_volume(&mesh);
    assert!(area > 0.0);
    let expect = 2.0 * PI * PI * 2.0 * 0.6 * 0.6;
    assert!((volume.abs() - expect).abs() / expect < 0.02, "volume {} should be close to {}", volume, expect);
}

#[test]
fn test_unfolded_mesh_stats() {
    let mesh = unfolded_quad_mesh(2.0, 0.6, 24, 20);
    let s = mesh.compute_stats();
    assert!(!s.is_closed, "the unfolded grid is open along the seams");
    assert_eq!(s.euler_characteristic, 1, "the unfolded grid is a disc");
    assert_eq!(s.boundary_loops, 1, "the unfolded grid has one outer boundary loop");
    assert_eq!(s.boundary_half_edges, 2 * (24 + 20));
}

#[test]
fn test_compute_stats_terminates_on_nonmanifold_boundary() {
    let positions = vec![
        Vec3::new(0.0, 0.0, 0.0),
        Vec3::new(1.0, 0.0, 0.0),
        Vec3::new(1.0, 1.0, 0.0),
        Vec3::new(0.0, 1.0, 0.0),
    ];
    let uvs = vec![Vec2::ZERO; 4];
    let tris = vec![(0usize, 1, 2), (0usize, 2, 3), (1usize, 2, 3)];
    let mesh = HalfEdgeMesh::from_triangles(&positions, &uvs, &tris);
    let s = mesh.compute_stats();
    assert!(s.boundary_half_edges > 0, "a degenerate mesh has boundary half-edges");
}

#[test]
fn single_triangle_stats() {
    let positions = vec![Vec3::ZERO, Vec3::X, Vec3::Y];
    let uvs = vec![Vec2::ZERO; 3];
    let mesh = HalfEdgeMesh::from_triangles(&positions, &uvs, &[(0, 1, 2)]);
    let s = mesh.compute_stats();
    assert_eq!(s.vertices, 3);
    assert_eq!(s.faces, 1);
    assert_eq!(s.edges, 3);
    assert_eq!(s.boundary_half_edges, 3);
    assert_eq!(s.boundary_loops, 1);
    assert!(!s.is_closed);
    assert_eq!(s.euler_characteristic, 1);
    assert_eq!(s.degree_sum, 3);
    assert_eq!(s.polygon_faces, 1);
}

#[test]
fn empty_mesh_stats() {
    let mesh = HalfEdgeMesh::new();
    let s = mesh.compute_stats();
    assert_eq!(s.vertices, 0);
    assert_eq!(s.faces, 0);
    assert_eq!(s.edges, 0);
    assert!(s.is_closed);
    assert_eq!(s.boundary_loops, 0);
    assert_eq!(s.euler_characteristic, 0);
}

#[test]
fn two_separate_triangles_have_two_boundary_loops() {
    let positions = vec![Vec3::ZERO; 6];
    let uvs = vec![Vec2::ZERO; 6];
    let mesh = HalfEdgeMesh::from_triangles(&positions, &uvs, &[(0, 1, 2), (3, 4, 5)]);
    let s = mesh.compute_stats();
    assert_eq!(s.boundary_loops, 2);
    assert_eq!(s.boundary_half_edges, 6);
    assert_eq!(s.euler_characteristic, 2);
}

/// Where the line `u = c` (`is_u`) or `v = c` crosses a face of the closed
/// torus grid; the faces across the seam (whose coordinates jump by 2π)
/// lie away from the lines used here.
fn line_crossings(is_u: bool, c: f32, corners: &[(usize, Vec2, Vec3)]) -> Option<TriangleIntersection> {
    let n = corners.len();
    let coord = |p: Vec2| if is_u { p.x } else { p.y };
    let mut edge_points = Vec::new();
    for i in 0..n {
        let (a, b) = (corners[i], corners[(i + 1) % n]);
        let (ca, cb) = (coord(a.1), coord(b.1));
        if (ca - c) * (cb - c) < 0.0 && (cb - ca).abs() < 1.0 {
            let t = (c - ca) / (cb - ca);
            edge_points.push((a.0, b.0, a.2 + (b.2 - a.2) * t, a.1 + (b.1 - a.1) * t));
        }
    }
    if edge_points.is_empty() {
        None
    } else {
        Some(TriangleIntersection { edge_points, on_line_vertices: vec![] })
    }
}

#[test]
fn test_cut_mesh_stays_closed() {
    let mut mesh = closed_torus_mesh(48, 40, 2.0, 0.6);
    let u_vals = [1.0f32, 3.0];
    let v_vals = [1.0f32, 4.0];
    let intersect = |is_u: bool, k: usize, corners: &Vec<(usize, Vec2, Vec3)>| {
        let c = if is_u { u_vals[k] } else { v_vals[k] };
        line_crossings(is_u, c, corners)
    };
    let before = mesh.num_valid_faces();
    cut_mesh_by_grid(&mut mesh, 2, 2, &intersect, false);
    assert!(mesh.validate());
    assert!(mesh.num_valid_faces() > before);
    let s = mesh.compute_stats();
    assert!(s.is_closed, "cutting must not open the mesh");
    assert_eq!(s.boundary_half_edges, 0);
    assert_eq!(s.euler_characteristic, 0);
}
