use glam::{Vec2, Vec3};
use torus_grid_cutter::export::{collect_patch_groups, collect_patch_submeshes, ExportFormat};
use torus_grid_cutter::mesh::delaunay::{randomize_mesh_by_edge_flips, SimpleRng};
use torus_grid_cutter::mesh::half_edge::{FaceId, HalfEdgeId, HalfEdgeMesh, VertexId};
use torus_grid_cutter::mesh::regions::{assign_connected_components, assign_connected_components_knot};

/// A strip of `n` unit quads along u; quad `i` has corners
/// `2i, 2i + 2, 2i + 3, 2i + 1`.
fn strip(n: usize) -> HalfEdgeMesh {
    let mut positions = Vec::new();
    let mut uvs = Vec::new();
    for i in 0..=n {
        for j in 0..2 {
            positions.push(Vec3::new(i as f32, j as f32, 0.0));
            uvs.push(Vec2::new(i as f32, j as f32));
        }
    }
    let quads: Vec<_> = (0..n).map(|i| (2 * i, 2 * i + 2, 2 * i + 3, 2 * i + 1)).collect();
    HalfEdgeMesh::from_quads(&positions, &uvs, &quads)
}

fn no_pairs(mesh: &HalfEdgeMesh) -> Vec<HalfEdgeId> {
    vec![HalfEdgeId(usize::MAX); mesh.half_edges.len()]
}

fn labels(mesh: &HalfEdgeMesh) -> Vec<Option<usize>> {
    mesh.faces.iter().map(|f| f.component_id).collect()
}

#[test]
fn uncut_strip_is_one_region() {
    let mut mesh = strip(4);
    let pairs = no_pairs(&mesh);
    assert_eq!(assign_connected_components(&mut mesh, &pairs), 1);
    assert_eq!(labels(&mesh), vec![Some(0); 4]);
}

#[test]
fn cut_edge_separates_regions() {
    let mut mesh = strip(4);
    // Cut the edge between quads 1 and 2 (vertices 4 and 5).
    for h in 0..mesh.half_edges.len() {
        let e = mesh.half_edges[h];
        let d = mesh.half_edges[e.next.0].origin;
        if (e.origin == VertexId(4) && d == VertexId(5)) || (e.origin == VertexId(5) && d == VertexId(4)) {
            mesh.half_edges[h].cut = true;
        }
    }
    let pairs = no_pairs(&mesh);
    assert_eq!(assign_connected_components(&mut mesh, &pairs), 2);
    assert_eq!(labels(&mesh), vec![Some(0), Some(0), Some(1), Some(1)]);
}

#[test]
fn seam_pairs_join_the_ends_of_a_strip() {
    let mut mesh = strip(3);
    // Cut the edge between quads 0 and 1, then join the strip's two end
    // edges (0-1 and 6-7) across the seam: the two pieces become one.
    for h in 0..mesh.half_edges.len() {
        let e = mesh.half_edges[h];
        let d = mesh.half_edges[e.next.0].origin;
        if (e.origin == VertexId(2) && d == VertexId(3)) || (e.origin == VertexId(3) && d == VertexId(2)) {
            mesh.half_edges[h].cut = true;
        }
    }
    let mut pairs = no_pairs(&mesh);
    assert_eq!(assign_connected_components(&mut mesh, &pairs), 2);
    let find = |mesh: &HalfEdgeMesh, a: usize, b: usize| {
        (0..mesh.half_edges.len())
            .find(|&h| {
                mesh.half_edges[h].origin == VertexId(a) && mesh.half_edges[mesh.half_edges[h].next.0].origin == VertexId(b)
            })
            .unwrap()
    };
    let left = find(&mesh, 1, 0);
    let right = find(&mesh, 6, 7);
    pairs[left] = HalfEdgeId(right);
    pairs[right] = HalfEdgeId(left);
    assert_eq!(assign_connected_components(&mut mesh, &pairs), 1);
    assert_eq!(labels(&mesh), vec![Some(0); 3]);
}

#[test]
fn invalid_faces_get_no_label() {
    let mut mesh = strip(2);
    mesh.faces[1].valid = false;
    let pairs = no_pairs(&mesh);
    let n = assign_connected_components(&mut mesh, &pairs);
    assert_eq!(n, 1);
    assert_eq!(labels(&mesh), vec![Some(0), None]);
}

#[test]
fn knot_classes_are_renumbered_densely() {
    let mut mesh = strip(4);
    let n = assign_connected_components_knot(&mut mesh, false, &[Some(7), Some(2), None, Some(7)]);
    assert_eq!(n, 2);
    assert_eq!(labels(&mesh), vec![Some(1), Some(0), None, Some(1)]);
    let patches: Vec<_> = mesh.faces.iter().map(|f| f.patch_index).collect();
    assert_eq!(patches, vec![Some((1, 0)), Some((0, 0)), None, Some((1, 0))]);
}

#[test]
fn single_knot_curve_is_one_region() {
    let mut mesh = strip(3);
    mesh.faces[2].valid = false;
    let n = assign_connected_components_knot(&mut mesh, true, &[None, None, None]);
    assert_eq!(n, 1);
    assert_eq!(labels(&mesh), vec![Some(0), Some(0), None]);
}

#[test]
fn patch_groups_are_sorted_and_fanned() {
    let mut mesh = strip(3);
    mesh.faces[0].patch_index = Some((1, 0));
    mesh.faces[1].patch_index = Some((0, 2));
    mesh.faces[2].patch_index = Some((1, 0));
    let groups = collect_patch_groups(&mesh);
    let keys: Vec<_> = groups.iter().map(|g| g.0).collect();
    assert_eq!(keys, vec![(0, 2), (1, 0)]);
    // Quad (0, 2, 3, 1) fans into (0, 2, 3) and (0, 3, 1).
    assert_eq!(groups[1].1, vec![(0, 2, 3), (0, 3, 1), (4, 6, 7), (4, 7, 5)]);
    assert_eq!(groups[0].1, vec![(2, 4, 5), (2, 5, 3)]);
}

#[test]
fn faces_without_patch_go_to_patch_zero() {
    let mesh = strip(2);
    let groups = collect_patch_groups(&mesh);
    assert_eq!(groups.len(), 1);
    assert_eq!(groups[0].0, (0, 0));
    assert_eq!(groups[0].1.len(), 4);
}

#[test]
fn patch_submeshes_use_local_vertices() {
    let mut mesh = strip(2);
    mesh.faces[1].patch_index = Some((0, 1));
    let subs = collect_patch_submeshes(&mesh);
    assert_eq!(subs.len(), 2);
    assert_eq!(subs[0].0, (0, 0));
    assert_eq!(subs[1].0, (0, 1));
    let second = &subs[1].1;
    // Quad (2, 4, 5, 3) over its own vertices 2, 3, 4, 5 (in that order).
    assert_eq!(second.positions.len(), 4);
    assert_eq!(second.uvs[0], Vec2::new(1.0, 0.0));
    assert_eq!(second.positions[3], Vec3::new(2.0, 1.0, 0.0));
    assert_eq!(second.tris, vec![(0, 2, 3), (0, 3, 1)]);
}

#[test]
fn export_format_names() {
    assert_eq!(ExportFormat::all().len(), 3);
    assert_eq!(ExportFormat::Obj.extension(), "obj");
    assert_eq!(ExportFormat::Stl.extension(), "stl");
    assert_eq!(ExportFormat::Ply.extension(), "ply");
    assert!(!ExportFormat::Ply.label().is_empty());
}

#[test]
fn rng_is_the_usual_lcg() {
    let mut rng = SimpleRng::new(0);
    assert_eq!(rng.state, 1);
    let r = rng.next_raw();
    let expect = 1u64.wrapping_mul(6364136223846793005).wrapping_add(1442695040888963407);
    assert_eq!(rng.state, expect);
    assert_eq!(r, expect >> 33);
    let mut a = SimpleRng::new(42);
    let mut b = SimpleRng::new(42);
    for _ in 0..10 {
        let i = a.next_index(7);
        assert!(i < 7);
        assert_eq!(i, (b.next_raw() * 7) >> 31);
    }
}

#[test]
fn randomized_flips_keep_the_vertices() {
    // A 3 x 3 grid of squares, each split into two triangles.
    let mut positions = Vec::new();
    let mut uvs = Vec::new();
    for i in 0..4 {
        for j in 0..4 {
            positions.push(Vec3::new(i as f32, j as f32, 0.0));
            uvs.push(Vec2::new(i as f32, j as f32));
        }
    }
    let mut tris = Vec::new();
    for i in 0..3 {
        for j in 0..3 {
            let a = i * 4 + j;
            tris.push((a, a + 4, a + 5));
            tris.push((a, a + 5, a + 1));
        }
    }
    let mesh = HalfEdgeMesh::from_triangles(&positions, &uvs, &tris);
    let convex = |a: Vec2, b: Vec2, c: Vec2, d: Vec2| {
        let cross2d = |p: Vec2, q: Vec2| p.x * q.y - p.y * q.x;
        let z = cross2d(b - a, c - a);
        z * cross2d(d - a, c - a) > 0.0 && z * cross2d(b - d, c - d) > 0.0
    };
    let out = randomize_mesh_by_edge_flips(&mesh, 3, 42, &convex);
    assert!(out.validate());
    assert_eq!(out.vertices.len(), mesh.vertices.len());
    assert_eq!(out.half_edges.len(), mesh.half_edges.len());
    assert_eq!(out.num_valid_faces(), 18);
    for v in 0..16 {
        assert_eq!(out.vertices[v].uv, mesh.vertices[v].uv);
    }
    for f in 0..out.faces.len() {
        assert_eq!(out.face_half_edges(FaceId(f)).len(), 3);
    }
}

#[test]
fn knot_labels_leave_no_gaps() {
    let mut mesh = strip(5);
    let n = assign_connected_components_knot(&mut mesh, false, &[Some(40), Some(3), Some(40), Some(9), Some(3)]);
    assert_eq!(n, 3);
    for label in 0..n {
        assert!(mesh.faces.iter().any(|f| f.component_id == Some(label) && f.patch_index == Some((label, 0))));
    }
}
