use glam::{Vec2, Vec3};
use torus_grid_cutter::mesh::half_edge::{FaceId, HalfEdgeId, HalfEdgeMesh, VertexId};

/// The parameter-space convexity test that flips use: the quad `a-c-b-d`
/// must keep the orientation of the triangle `a-b-c` in both new triangles.
fn uv_convex(a: Vec2, b: Vec2, c: Vec2, d: Vec2) -> bool {
    let cross2d = |p: Vec2, q: Vec2| p.x * q.y - p.y * q.x;
    let orig_z = cross2d(b - a, c - a);
    let new_z1 = cross2d(d - a, c - a);
    let new_z2 = cross2d(b - d, c - d);
    !(orig_z * new_z1 <= 0.0 || orig_z * new_z2 <= 0.0)
}

fn unit_square() -> (Vec<Vec3>, Vec<Vec2>) {
    let positions = vec![
        Vec3::new(0.0, 0.0, 0.0),
        Vec3::new(1.0, 0.0, 0.0),
        Vec3::new(1.0, 1.0, 0.0),
        Vec3::new(0.0, 1.0, 0.0),
    ];
    let uvs = vec![
        Vec2::new(0.0, 0.0),
        Vec2::new(1.0, 0.0),
        Vec2::new(1.0, 1.0),
        Vec2::new(0.0, 1.0),
    ];
    (positions, uvs)
}

#[test]
fn test_single_triangle() {
    let positions = vec![
        Vec3::new(0.0, 0.0, 0.0),
        Vec3::new(1.0, 0.0, 0.0),
        Vec3::new(0.0, 1.0, 0.0),
    ];
    let uvs = vec![
        Vec2::new(0.0, 0.0),
        Vec2::new(1.0, 0.0),
        Vec2::new(0.0, 1.0),
    ];
    let faces = vec![(0, 1, 2)];

    let mesh = HalfEdgeMesh::from_triangles(&positions, &uvs, &faces);
    assert_eq!(mesh.vertices.len(), 3);
    assert_eq!(mesh.half_edges.len(), 3);
    assert_eq!(mesh.num_valid_faces(), 1);
    assert!(mesh.validate());
}

#[test]
fn test_two_triangles_shared_edge() {
    let positions = vec![
        Vec3::new(0.0, 0.0, 0.0),
        Vec3::new(1.0, 0.0, 0.0),
        Vec3::new(0.0, 1.0, 0.0),
        Vec3::new(1.0, 1.0, 0.0),
    ];
    let uvs = vec![Vec2::ZERO; 4];
    let faces = vec![(0, 1, 2), (1, 3, 2)];

    let mesh = HalfEdgeMesh::from_triangles(&positions, &uvs, &faces);
    assert_eq!(mesh.vertices.len(), 4);
    assert_eq!(mesh.half_edges.len(), 6);
    assert_eq!(mesh.num_valid_faces(), 2);
    assert!(mesh.validate());

    let mut twin_count = 0;
    for he in &mesh.half_edges {
        if he.twin.0 != usize::MAX {
            twin_count += 1;
        }
    }
    assert_eq!(twin_count, 2);
}

#[test]
fn test_edge_flip() {
    let (positions, uvs) = unit_square();
    let faces = vec![(0, 1, 2), (0, 2, 3)];

    let mut mesh = HalfEdgeMesh::from_triangles(&positions, &uvs, &faces);
    assert!(mesh.validate());

    let shared_he = mesh
        .half_edges
        .iter()
        .position(|he| {
            he.twin.0 != usize::MAX
                && he.origin == VertexId(2)
                && mesh.half_edges[he.next.0].origin == VertexId(0)
        })
        .unwrap();

    let flipped = mesh.flip_edge(HalfEdgeId(shared_he), &uv_convex);
    assert!(flipped);
    assert!(mesh.validate());

    let shared_he2 = mesh
        .half_edges
        .iter()
        .position(|he| {
            he.twin.0 != usize::MAX
                && he.origin == VertexId(1)
                && mesh.half_edges[he.next.0].origin == VertexId(3)
        })
        .unwrap();
    let flipped2 = mesh.flip_edge(HalfEdgeId(shared_he2), &uv_convex);
    assert!(flipped2);
    assert!(mesh.validate());
}

#[test]
fn flip_refuses_boundary_edges_and_leaves_mesh_unchanged() {
    let (positions, uvs) = unit_square();
    let mut mesh = HalfEdgeMesh::from_triangles(&positions, &uvs, &[(0, 1, 2), (0, 2, 3)]);
    let boundary = mesh.half_edges.iter().position(|he| he.twin.0 == usize::MAX).unwrap();
    let before: Vec<_> = mesh.half_edges.iter().map(|e| (e.origin, e.next, e.prev, e.twin)).collect();
    assert!(!mesh.flip_edge(HalfEdgeId(boundary), &uv_convex));
    let after: Vec<_> = mesh.half_edges.iter().map(|e| (e.origin, e.next, e.prev, e.twin)).collect();
    assert_eq!(before, after);
}

#[test]
fn flip_refused_when_convexity_test_says_no() {
    let (positions, uvs) = unit_square();
    let mut mesh = HalfEdgeMesh::from_triangles(&positions, &uvs, &[(0, 1, 2), (0, 2, 3)]);
    let shared = mesh.half_edges.iter().position(|he| he.twin.0 != usize::MAX).unwrap();
    assert!(!mesh.flip_edge(HalfEdgeId(shared), &|_, _, _, _| false));
    assert!(mesh.validate());
    assert_eq!(mesh.face_half_edges(FaceId(0)).len(), 3);
}

#[test]
fn flip_turns_diagonal_into_other_diagonal() {
    let (positions, uvs) = unit_square();
    let mut mesh = HalfEdgeMesh::from_triangles(&positions, &uvs, &[(0, 1, 2), (0, 2, 3)]);
    let shared = mesh
        .half_edges
        .iter()
        .position(|he| he.origin == VertexId(0) && mesh.half_edges[he.next.0].origin == VertexId(2))
        .unwrap();
    assert!(mesh.flip_edge(HalfEdgeId(shared), &uv_convex));
    // The diagonal now joins corners 1 and 3, in both directions.
    let joins = |a: usize, b: usize| {
        mesh.half_edges
            .iter()
            .any(|he| he.origin == VertexId(a) && mesh.half_edges[he.next.0].origin == VertexId(b))
    };
    assert!(joins(1, 3) && joins(3, 1));
    assert!(!joins(0, 2) && !joins(2, 0));
    // Each face is still a triangle.
    assert_eq!(mesh.face_half_edges(FaceId(0)).len(), 3);
    assert_eq!(mesh.face_half_edges(FaceId(1)).len(), 3);
}

#[test]
fn quads_share_edges_with_twins() {
    let positions = vec![Vec3::ZERO; 6];
    let uvs = vec![Vec2::ZERO; 6];
    // Two quads side by side sharing the edge 1-4.
    let quads = vec![(0, 1, 4, 3), (1, 2, 5, 4)];
    let mesh = HalfEdgeMesh::from_quads(&positions, &uvs, &quads);
    assert!(mesh.validate());
    assert_eq!(mesh.half_edges.len(), 8);
    assert_eq!(mesh.num_valid_faces(), 2);
    let twins = mesh.half_edges.iter().filter(|he| he.twin.0 != usize::MAX).count();
    assert_eq!(twins, 2);
    let walk: Vec<usize> = mesh
        .face_half_edges(FaceId(1))
        .iter()
        .map(|h| mesh.half_edges[h.0].origin.0)
        .collect();
    assert_eq!(walk, vec![1, 2, 5, 4]);
}

#[test]
fn split_edge_inserts_vertex_in_both_faces() {
    let (positions, uvs) = unit_square();
    let mut mesh = HalfEdgeMesh::from_triangles(&positions, &uvs, &[(0, 1, 2), (0, 2, 3)]);
    let shared = mesh
        .half_edges
        .iter()
        .position(|he| he.origin == VertexId(0) && mesh.half_edges[he.next.0].origin == VertexId(2))
        .unwrap();
    let v = mesh.split_edge(HalfEdgeId(shared), Vec3::new(0.5, 0.5, 0.0), Vec2::new(0.5, 0.5));
    assert_eq!(v, VertexId(4));
    assert_eq!(mesh.vertices.len(), 5);
    assert!(mesh.validate());
    assert_eq!(mesh.face_half_edges(FaceId(0)).len(), 4);
    assert_eq!(mesh.face_half_edges(FaceId(1)).len(), 4);
}

#[test]
fn face_split_divides_a_quad() {
    let (positions, uvs) = unit_square();
    let mut mesh = HalfEdgeMesh::from_quads(&positions, &uvs, &[(0, 1, 2, 3)]);
    let r = mesh.split_face(FaceId(0), VertexId(0), VertexId(2), true);
    assert_eq!(r, FaceId(1));
    assert!(mesh.validate());
    assert_eq!(mesh.num_valid_faces(), 2);
    assert_eq!(mesh.face_half_edges(FaceId(0)).len(), 3);
    assert_eq!(mesh.face_half_edges(FaceId(1)).len(), 3);
    // The new diagonal carries the cut mark on both sides.
    let cut = mesh.half_edges.iter().filter(|he| he.cut).count();
    assert_eq!(cut, 2);
}

#[test]
fn face_split_refuses_adjacent_corners() {
    let (positions, uvs) = unit_square();
    let mut mesh = HalfEdgeMesh::from_quads(&positions, &uvs, &[(0, 1, 2, 3)]);
    assert_eq!(mesh.split_face(FaceId(0), VertexId(0), VertexId(1), false), FaceId(0));
    assert_eq!(mesh.split_face(FaceId(0), VertexId(0), VertexId(0), false), FaceId(0));
    assert_eq!(mesh.num_valid_faces(), 1);
}

#[test]
fn interior_fan_makes_one_triangle_per_side() {
    let (positions, uvs) = unit_square();
    let mut mesh = HalfEdgeMesh::from_quads(&positions, &uvs, &[(0, 1, 2, 3)]);
    let (p, spokes) = mesh.insert_interior_vertex_fan(FaceId(0), Vec3::new(0.5, 0.5, 0.0), Vec2::new(0.5, 0.5));
    assert_eq!(p, VertexId(4));
    assert_eq!(spokes.len(), 4);
    assert!(mesh.validate());
    assert_eq!(mesh.num_valid_faces(), 4);
    for s in &spokes {
        assert_eq!(mesh.half_edges[s.0].origin, p);
    }
}

#[test]
fn vertices_connected_through_an_edge() {
    let (positions, uvs) = unit_square();
    let mesh = HalfEdgeMesh::from_triangles(&positions, &uvs, &[(0, 1, 2), (0, 2, 3)]);
    assert!(mesh.are_vertices_connected(VertexId(0), VertexId(2)));
    assert!(mesh.are_vertices_connected(VertexId(0), VertexId(1)));
    assert!(!mesh.are_vertices_connected(VertexId(1), VertexId(3)));
}
