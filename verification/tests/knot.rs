use glam::{Vec2, Vec3};
use torus_grid_cutter::mesh::cut::{
    grid_edge_may_cross, knot_edge_crosses, line_contact, LineContact, Side, TriangleIntersection,
};
use torus_grid_cutter::mesh::half_edge::{FaceId, HalfEdgeId, HalfEdgeMesh, VertexId};
use torus_grid_cutter::mesh::knot::{
    add_chord, cut_face_knots, cut_mesh_by_knots, face_path, insert_boundary_point, BoundaryPlacement, ChordCrossing,
};

/// One unit quad with corners 0 (0,0), 1 (0,1), 2 (1,0), 3 (1,1); its walk
/// is 0 -> 2 -> 3 -> 1.
fn unit_quad() -> HalfEdgeMesh {
    let positions = vec![
        Vec3::new(0.0, 0.0, 0.0),
        Vec3::new(0.0, 1.0, 0.0),
        Vec3::new(1.0, 0.0, 0.0),
        Vec3::new(1.0, 1.0, 0.0),
    ];
    let uvs: Vec<Vec2> = positions.iter().map(|p| Vec2::new(p.x, p.y)).collect();
    HalfEdgeMesh::from_quads(&positions, &uvs, &[(0, 2, 3, 1)])
}

fn no_crossing(_: &HalfEdgeMesh, _: VertexId, _: VertexId) -> Option<ChordCrossing> {
    None
}

fn cut_count(mesh: &HalfEdgeMesh) -> usize {
    mesh.half_edges.iter().filter(|e| e.cut).count()
}

fn origins(mesh: &HalfEdgeMesh, path: &[HalfEdgeId]) -> Vec<usize> {
    path.iter().map(|h| mesh.half_edges[h.0].origin.0).collect()
}

#[test]
fn well_formedness_check() {
    let mut mesh = unit_quad();
    assert!(mesh.is_well_formed());
    mesh.half_edges[0].prev = HalfEdgeId(0);
    assert!(!mesh.is_well_formed());
    let mut mesh = unit_quad();
    mesh.half_edges[1].next = HalfEdgeId(99);
    assert!(!mesh.is_well_formed());
    assert!(HalfEdgeMesh::new().is_well_formed());
}

#[test]
fn line_contact_cases() {
    let (lt, gt, on) = (Side::Less, Side::Greater, Side::OnLine);
    assert_eq!(line_contact(&[lt, lt, lt]), LineContact::Miss);
    assert_eq!(line_contact(&[lt, gt, gt]), LineContact::Meets);
    assert_eq!(line_contact(&[lt, on, lt]), LineContact::Meets);
    assert_eq!(line_contact(&[on, on, on]), LineContact::AllOnLine);
    assert_eq!(line_contact(&[]), LineContact::AllOnLine);
    assert!(grid_edge_may_cross(lt, gt));
    assert!(grid_edge_may_cross(on, gt));
    assert!(!grid_edge_may_cross(on, on));
    assert!(!grid_edge_may_cross(lt, lt));
    assert!(knot_edge_crosses(lt, gt));
    assert!(!knot_edge_crosses(on, gt));
    assert!(!knot_edge_crosses(gt, gt));
}

#[test]
fn boundary_paths_go_round_the_face() {
    let mesh = unit_quad();
    let p = face_path(&mesh, FaceId(0), VertexId(0), VertexId(3)).unwrap();
    assert_eq!(origins(&mesh, &p), vec![0, 2]);
    let p = face_path(&mesh, FaceId(0), VertexId(3), VertexId(0)).unwrap();
    assert_eq!(origins(&mesh, &p), vec![3, 1]);
    let p = face_path(&mesh, FaceId(0), VertexId(2), VertexId(2)).unwrap();
    assert_eq!(origins(&mesh, &p), vec![2, 3, 1, 0]);
    assert!(face_path(&mesh, FaceId(0), VertexId(7), VertexId(0)).is_none());
    assert!(face_path(&mesh, FaceId(0), VertexId(0), VertexId(7)).is_none());
}

#[test]
fn boundary_points_split_reuse_or_give_up() {
    let mut mesh = unit_quad();
    let split = |_: &HalfEdgeMesh, _: FaceId, _: &Vec<HalfEdgeId>, p: Vec3| BoundaryPlacement::Split(0, p);
    let v = insert_boundary_point(
        &mut mesh,
        FaceId(0),
        VertexId(0),
        VertexId(2),
        Vec3::new(0.5, 0.0, 0.0),
        Vec2::new(0.5, 0.0),
        &split,
    );
    assert_eq!(v, Some(VertexId(4)));
    assert_eq!(mesh.vertices[4].uv, Vec2::new(0.5, 0.0));
    assert_eq!(mesh.face_half_edges(FaceId(0)).len(), 5);
    assert!(mesh.is_well_formed());

    let corner = |_: &HalfEdgeMesh, _: FaceId, _: &Vec<HalfEdgeId>, _: Vec3| BoundaryPlacement::Corner(VertexId(3));
    let v = insert_boundary_point(&mut mesh, FaceId(0), VertexId(2), VertexId(3), Vec3::ZERO, Vec2::ZERO, &corner);
    assert_eq!(v, Some(VertexId(3)));
    // A "corner" that is not on the face is refused.
    let stranger = |_: &HalfEdgeMesh, _: FaceId, _: &Vec<HalfEdgeId>, _: Vec3| BoundaryPlacement::Corner(VertexId(40));
    let v = insert_boundary_point(&mut mesh, FaceId(0), VertexId(2), VertexId(3), Vec3::ZERO, Vec2::ZERO, &stranger);
    assert_eq!(v, None);
    let missing = |_: &HalfEdgeMesh, _: FaceId, _: &Vec<HalfEdgeId>, _: Vec3| BoundaryPlacement::Missing;
    let v = insert_boundary_point(&mut mesh, FaceId(0), VertexId(2), VertexId(3), Vec3::ZERO, Vec2::ZERO, &missing);
    assert_eq!(v, None);
    // A split past the end of the path is refused.
    let far = |_: &HalfEdgeMesh, _: FaceId, _: &Vec<HalfEdgeId>, p: Vec3| BoundaryPlacement::Split(9, p);
    let v = insert_boundary_point(&mut mesh, FaceId(0), VertexId(2), VertexId(3), Vec3::ZERO, Vec2::ZERO, &far);
    assert_eq!(v, None);
    assert_eq!(mesh.vertices.len(), 5);
}

#[test]
fn chord_across_a_face_splits_it() {
    let mut mesh = unit_quad();
    add_chord(&mut mesh, VertexId(0), VertexId(3), &no_crossing);
    assert!(mesh.is_well_formed());
    assert_eq!(mesh.num_valid_faces(), 2);
    assert_eq!(cut_count(&mesh), 2);
}

#[test]
fn chord_along_an_edge_marks_it() {
    let mut mesh = unit_quad();
    add_chord(&mut mesh, VertexId(0), VertexId(2), &no_crossing);
    assert_eq!(mesh.num_valid_faces(), 1);
    assert_eq!(cut_count(&mesh), 1);
    // A chord from a vertex to itself does nothing.
    add_chord(&mut mesh, VertexId(1), VertexId(1), &no_crossing);
    assert_eq!(cut_count(&mesh), 1);
}

#[test]
fn crossing_chords_meet_at_a_new_vertex() {
    let mut mesh = unit_quad();
    // First the diagonal 0-3, then the diagonal 1-2 crosses it.
    add_chord(&mut mesh, VertexId(0), VertexId(3), &no_crossing);
    let crossing = |m: &HalfEdgeMesh, a: VertexId, _: VertexId| {
        if a != VertexId(1) {
            return None;
        }
        // The face round vertex 1 that holds the cut diagonal.
        let f = (0..m.faces.len()).find(|&f| {
            m.face_half_edges(FaceId(f)).iter().any(|h| m.half_edges[h.0].origin == VertexId(1))
        })?;
        Some(ChordCrossing {
            face: FaceId(f),
            o: VertexId(0),
            nb: VertexId(3),
            position: Vec3::new(0.5, 0.5, 0.0),
            uv: Vec2::new(0.5, 0.5),
        })
    };
    add_chord(&mut mesh, VertexId(1), VertexId(2), &crossing);
    assert!(mesh.is_well_formed());
    // The crossing vertex is the fifth vertex; the face it lies in becomes
    // a fan of three triangles.
    assert_eq!(mesh.vertices.len(), 5);
    assert_eq!(mesh.vertices[4].uv, Vec2::new(0.5, 0.5));
    assert_eq!(mesh.num_valid_faces(), 4);
    // Every spoke of the crossing vertex lies on a cut.
    for e in &mesh.half_edges {
        if e.origin == VertexId(4) {
            assert!(e.cut);
        }
    }
}

#[test]
fn knot_branch_through_a_face() {
    let mut mesh = unit_quad();
    // One branch crossing the edges 0-2 and 3-1 at their middles.
    let meets = |_: &Vec<(usize, Vec2, Vec3)>| {
        vec![(
            0usize,
            TriangleIntersection {
                edge_points: vec![
                    (0, 2, Vec3::new(0.5, 0.0, 0.0), Vec2::new(0.5, 0.0)),
                    (3, 1, Vec3::new(0.5, 1.0, 0.0), Vec2::new(0.5, 1.0)),
                ],
                on_line_vertices: vec![],
            },
        )]
    };
    let place = |_: &HalfEdgeMesh, _: FaceId, _: &Vec<HalfEdgeId>, p: Vec3| BoundaryPlacement::Split(0, p);
    let order = |_: &HalfEdgeMesh, _: FaceId, pts: &Vec<VertexId>, _: usize| pts.clone();
    assert!(cut_face_knots(&mut mesh, FaceId(0), &meets, &place, &order, &no_crossing));
    assert!(mesh.is_well_formed());
    assert_eq!(mesh.vertices.len(), 6);
    assert_eq!(mesh.num_valid_faces(), 2);
    // The chord between the two inserted points is the only cut.
    let cut: Vec<usize> = mesh.half_edges.iter().filter(|e| e.cut).map(|e| e.origin.0).collect();
    assert_eq!(cut.len(), 2);
    assert!(cut.contains(&4) && cut.contains(&5));
}

#[test]
fn knots_that_miss_leave_the_mesh_alone() {
    let mut mesh = unit_quad();
    let meets = |_: &Vec<(usize, Vec2, Vec3)>| Vec::<(usize, TriangleIntersection)>::new();
    let place = |_: &HalfEdgeMesh, _: FaceId, _: &Vec<HalfEdgeId>, _: Vec3| BoundaryPlacement::Missing;
    let order = |_: &HalfEdgeMesh, _: FaceId, pts: &Vec<VertexId>, _: usize| pts.clone();
    assert!(!cut_face_knots(&mut mesh, FaceId(0), &meets, &place, &order, &no_crossing));
    cut_mesh_by_knots(&mut mesh, &meets, &place, &order, &no_crossing);
    assert_eq!(mesh.vertices.len(), 4);
    assert_eq!(mesh.num_valid_faces(), 1);
    assert_eq!(cut_count(&mesh), 0);
}
