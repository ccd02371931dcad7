use glam::{Vec2, Vec3};
use torus_grid_cutter::mesh::cut::{
    are_adjacent, contains_vertex, cut_face_by_intersection, cut_face_local, cut_mesh_by_grid, cut_mesh_by_line,
    faces_around_vertex,
    find_face_with_both, find_half_edge_on_face, get_face_uvs, mark_edge_cut_anywhere, mark_edge_cut_between,
    order_verts_on_face, triangulate_face, TriangleIntersection,
};
use torus_grid_cutter::mesh::half_edge::{FaceId, HalfEdgeId, HalfEdgeMesh, VertexId};

/// A flat open grid of `nu x nv` unit quads; vertex `(i, j)` has index
/// `i * (nv + 1) + j` and parameter coordinates `(i, j)`.
fn flat_grid(nu: usize, nv: usize) -> HalfEdgeMesh {
    let mut positions = Vec::new();
    let mut uvs = Vec::new();
    for i in 0..=nu {
        for j in 0..=nv {
            positions.push(Vec3::new(i as f32, j as f32, 0.0));
            uvs.push(Vec2::new(i as f32, j as f32));
        }
    }
    let w = nv + 1;
    let mut quads = Vec::new();
    for i in 0..nu {
        for j in 0..nv {
            quads.push((i * w + j, (i + 1) * w + j, (i + 1) * w + j + 1, i * w + j + 1));
        }
    }
    HalfEdgeMesh::from_quads(&positions, &uvs, &quads)
}

/// Where the straight line `coord = c` (`coord` is u for `is_u`, else v)
/// meets a face given by its corners.
fn line_meets_face(is_u: bool, c: f32, corners: &[(usize, Vec2, Vec3)]) -> Option<TriangleIntersection> {
    let n = corners.len();
    if n < 3 {
        return None;
    }
    let coord = |p: Vec2| if is_u { p.x } else { p.y };
    let side: Vec<i32> = corners
        .iter()
        .map(|&(_, uv, _)| {
            let d = coord(uv) - c;
            if d.abs() < 1e-6 {
                0
            } else if d < 0.0 {
                -1
            } else {
                1
            }
        })
        .collect();
    let less = side.contains(&-1);
    let greater = side.contains(&1);
    let on = side.contains(&0);
    if !(less && greater) && !on {
        return None;
    }
    let mut edge_points = Vec::new();
    let mut on_line_vertices = Vec::new();
    for i in 0..n {
        if side[i] == 0 {
            on_line_vertices.push(corners[i].0);
        }
        let j = (i + 1) % n;
        if side[i] * side[j] < 0 {
            let (a, b) = (corners[i], corners[j]);
            let t = (c - coord(a.1)) / (coord(b.1) - coord(a.1));
            edge_points.push((a.0, b.0, a.2 + (b.2 - a.2) * t, a.1 + (b.1 - a.1) * t));
        }
    }
    Some(TriangleIntersection { edge_points, on_line_vertices })
}

fn quad_count(mesh: &HalfEdgeMesh) -> (usize, usize) {
    let mut quads = 0;
    let mut others = 0;
    for f in 0..mesh.faces.len() {
        if mesh.faces[f].valid {
            if mesh.face_half_edges(FaceId(f)).len() == 4 {
                quads += 1;
            } else {
                others += 1;
            }
        }
    }
    (quads, others)
}

#[test]
fn grid_cut_off_the_grid_lines_splits_faces() {
    let mut mesh = flat_grid(4, 3);
    let intersect = |is_u: bool, _k: usize, corners: &Vec<(usize, Vec2, Vec3)>| {
        line_meets_face(is_u, if is_u { 1.5 } else { 1.5 }, corners)
    };
    let before = mesh.num_valid_faces();
    cut_mesh_by_grid(&mut mesh, 1, 1, &intersect, true);
    assert!(mesh.validate());
    assert!(mesh.num_valid_faces() > before);
    // With the final triangulation every face is a triangle.
    let (quads, others) = quad_count(&mesh);
    assert_eq!(quads, 0);
    assert!(others > 0);
    for f in 0..mesh.faces.len() {
        if mesh.faces[f].valid {
            assert_eq!(mesh.face_half_edges(FaceId(f)).len(), 3);
        }
    }
    // Existing vertices keep their coordinates.
    assert_eq!(mesh.vertices[0].uv, Vec2::new(0.0, 0.0));
    assert_eq!(mesh.vertices[19].uv, Vec2::new(4.0, 3.0));
}

#[test]
fn cut_face_local_declines_faces_the_line_misses() {
    let mut mesh = flat_grid(2, 1);
    let miss = |corners: &Vec<(usize, Vec2, Vec3)>| line_meets_face(true, 7.5, corners);
    assert!(!cut_face_local(&mut mesh, FaceId(0), &miss));
    assert_eq!(mesh.num_valid_faces(), 2);
    let hit = |corners: &Vec<(usize, Vec2, Vec3)>| line_meets_face(true, 0.5, corners);
    assert!(cut_face_local(&mut mesh, FaceId(0), &hit));
    assert!(mesh.validate());
    assert!(mesh.num_valid_faces() > 2);
}

#[test]
fn cut_by_intersection_splits_a_quad_in_two() {
    let mut mesh = flat_grid(1, 1);
    let corners = get_face_uvs(&mesh, FaceId(0));
    assert_eq!(corners.iter().map(|c| c.0).collect::<Vec<_>>(), vec![0, 2, 3, 1]);
    let isect = line_meets_face(true, 0.5, &corners).unwrap();
    assert_eq!(isect.edge_points.len(), 2);
    cut_face_by_intersection(&mut mesh, FaceId(0), &isect);
    assert!(mesh.validate());
    assert_eq!(mesh.vertices.len(), 6);
    // The two halves are quads, which are then triangulated.
    assert_eq!(mesh.num_valid_faces(), 4);
    assert_eq!(quad_count(&mesh), (0, 4));
    // The new edge between the two inserted points lies on the cut.
    let cut_edges = mesh
        .half_edges
        .iter()
        .filter(|e| e.cut)
        .map(|e| e.origin.0)
        .collect::<Vec<_>>();
    assert_eq!(cut_edges.len(), 2);
    assert!(cut_edges.iter().all(|&v| v == 4 || v == 5));
}

#[test]
fn triangulate_face_makes_triangles() {
    let positions = vec![Vec3::ZERO; 4];
    let uvs = vec![Vec2::ZERO; 4];
    let mut mesh = HalfEdgeMesh::from_quads(&positions, &uvs, &[(0, 1, 2, 3)]);
    triangulate_face(&mut mesh, FaceId(0));
    assert!(mesh.validate());
    assert_eq!(mesh.num_valid_faces(), 2);
    assert_eq!(mesh.face_half_edges(FaceId(0)).len(), 3);
    assert_eq!(mesh.face_half_edges(FaceId(1)).len(), 3);
    assert!(mesh.half_edges.iter().all(|e| !e.cut));
}

#[test]
fn faces_round_a_grid_vertex() {
    let mesh = flat_grid(2, 2);
    // The centre vertex (1, 1) has index 4 and touches all four quads.
    let mut fs: Vec<usize> = faces_around_vertex(&mesh, VertexId(4)).iter().map(|f| f.0).collect();
    fs.sort();
    assert_eq!(fs, vec![0, 1, 2, 3]);
    // A corner vertex touches one face.
    assert_eq!(faces_around_vertex(&mesh, VertexId(0)).len(), 1);
    // A vertex on a border edge touches two faces, whichever way it is walked.
    let mut fs: Vec<usize> = faces_around_vertex(&mesh, VertexId(1)).iter().map(|f| f.0).collect();
    fs.sort();
    assert_eq!(fs, vec![0, 1]);
}

#[test]
fn face_with_both_corners() {
    let mesh = flat_grid(2, 2);
    // Vertices 0 and 4 share face 0 (its diagonal corners).
    assert_eq!(find_face_with_both(&mesh, VertexId(0), VertexId(4)), Some(FaceId(0)));
    // Vertices 0 and 8 share no face.
    assert_eq!(find_face_with_both(&mesh, VertexId(0), VertexId(8)), None);
}

#[test]
fn marking_cut_edges() {
    let mut mesh = flat_grid(2, 1);
    // Edge 2-3 is shared by the two quads.
    assert!(mark_edge_cut_between(&mut mesh, FaceId(0), VertexId(3), VertexId(2)));
    assert_eq!(mesh.half_edges.iter().filter(|e| e.cut).count(), 2);
    // An edge the face does not have.
    assert!(!mark_edge_cut_between(&mut mesh, FaceId(0), VertexId(0), VertexId(3)));
    assert_eq!(mesh.half_edges.iter().filter(|e| e.cut).count(), 2);
    // Found through the faces round vertex 4: the border edge 4-5.
    assert!(mark_edge_cut_anywhere(&mut mesh, VertexId(4), VertexId(5)));
    assert_eq!(mesh.half_edges.iter().filter(|e| e.cut).count(), 3);
    assert!(!mark_edge_cut_anywhere(&mut mesh, VertexId(0), VertexId(5)));
    assert!(mesh.validate());
}

#[test]
fn half_edge_lookup_and_ordering() {
    let mesh = flat_grid(1, 1);
    let h = find_half_edge_on_face(&mesh, FaceId(0), VertexId(0), VertexId(2)).unwrap();
    assert_eq!(mesh.half_edges[h.0].origin, VertexId(0));
    assert_eq!(mesh.half_edges[mesh.half_edges[h.0].next.0].origin, VertexId(2));
    assert_eq!(find_half_edge_on_face(&mesh, FaceId(0), VertexId(2), VertexId(0)), None);
    let ordered = order_verts_on_face(&mesh, FaceId(0), &[VertexId(1), VertexId(7), VertexId(2)]);
    assert_eq!(ordered, vec![VertexId(2), VertexId(1)]);
    assert!(contains_vertex(&[VertexId(1), VertexId(2)], VertexId(2)));
    assert!(!contains_vertex(&[], VertexId(2)));
    assert!(are_adjacent(&mesh, VertexId(0), VertexId(2)));
    assert!(!are_adjacent(&mesh, VertexId(0), VertexId(3)));
    let _ = HalfEdgeId(0);
}

#[test]
fn line_through_corners_splits_faces_along_diagonals() {
    let mut mesh = flat_grid(3, 3);
    // The line u = v passes through two opposite corners of each diagonal cell.
    let intersect = |_is_u: bool, _k: usize, corners: &Vec<(usize, Vec2, Vec3)>| {
        let on: Vec<usize> = corners.iter().filter(|c| c.1.x == c.1.y).map(|c| c.0).collect();
        if on.len() >= 2 {
            Some(TriangleIntersection { edge_points: Vec::new(), on_line_vertices: on })
        } else {
            None
        }
    };
    let cuts = cut_mesh_by_line(&mut mesh, true, 0, &intersect);
    assert_eq!(cuts, 3);
    assert!(mesh.validate());
    assert_eq!(mesh.num_valid_faces(), 12);
    assert_eq!(mesh.vertices.len(), 16);
    let cut_edges = mesh.half_edges.iter().filter(|h| h.cut).count();
    assert_eq!(cut_edges, 6);
}

#[test]
fn cut_face_local_triangulates_a_crossed_quad() {
    let mut mesh = flat_grid(1, 1);
    let intersect = |corners: &Vec<(usize, Vec2, Vec3)>| line_meets_face(true, 0.5, corners);
    let cut = cut_face_local(&mut mesh, FaceId(0), &intersect);
    assert!(cut);
    assert!(mesh.validate());
    // The quad is first split into two triangles; the line then crosses the
    // one left in its place at two new vertices.
    assert!(mesh.num_valid_faces() > 2);
    assert_eq!(mesh.vertices.len(), 6);
}
