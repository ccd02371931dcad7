use glam::{Vec2, Vec3};
use torus_grid_cutter::mesh::cut::TriangleIntersection;
use torus_grid_cutter::mesh::grid::unfolded_grid_mesh;
use torus_grid_cutter::mesh::half_edge::{FaceId, HalfEdgeId, HalfEdgeMesh, VertexId};
use torus_grid_cutter::mesh::knot::{BoundaryPlacement, ChordCrossing};
use torus_grid_cutter::pipeline::apply_cuts;
use torus_grid_cutter::ui::panel::{CutMode, MeshType, UiState};

type Corners = Vec<(usize, Vec2, Vec3)>;

fn grid(ru: usize, rv: usize) -> HalfEdgeMesh {
    let n = (ru + 1) * (rv + 1);
    let positions: Vec<Vec3> = (0..n).map(|k| Vec3::new(k as f32, 0.0, 0.0)).collect();
    let uvs = vec![Vec2::ZERO; n];
    unfolded_grid_mesh(&positions, &uvs, ru, rv)
}

fn run(
    state: &mut UiState,
    base: &HalfEdgeMesh,
    obj_files: usize,
    labels: Vec<Option<(usize, usize)>>,
    classes: (bool, Vec<Option<usize>>),
) -> Option<HalfEdgeMesh> {
    let intersect = |_u: bool, _k: usize, _c: &Corners| -> Option<TriangleIntersection> { None };
    let meets = |_c: &Corners| -> Vec<(usize, TriangleIntersection)> { Vec::new() };
    let place = |_m: &HalfEdgeMesh, _f: FaceId, _p: &Vec<HalfEdgeId>, _x: Vec3| BoundaryPlacement::Missing;
    let order = |_m: &HalfEdgeMesh, _f: FaceId, p: &Vec<VertexId>, _k: usize| p.clone();
    let crossing = |_m: &HalfEdgeMesh, _a: VertexId, _b: VertexId| -> Option<ChordCrossing> { None };
    let grid_patch = |_m: &HalfEdgeMesh| labels.clone();
    let classify = |_m: &HalfEdgeMesh| classes.clone();
    apply_cuts(state, base, obj_files, 0, 0, &intersect, &meets, &place, &order, &crossing, &grid_patch, &classify)
}

#[test]
fn uncut_mesh_is_one_patch() {
    let base = grid(3, 2);
    let mut s = UiState::new();
    s.mesh_type = MeshType::Quad;
    s.cut_mode = CutMode::Grid;
    let m = run(&mut s, &base, 0, Vec::new(), (true, Vec::new())).unwrap();
    assert!(m.is_well_formed());
    assert_eq!(m.num_valid_faces(), 6);
    assert!(m.faces.iter().all(|f| f.patch_index == Some((0, 0))));
    assert_eq!(s.patch_visible, vec![true; 1]);
}

#[test]
fn uncut_obj_files_keep_their_patches() {
    let mut base = grid(2, 1);
    base.faces[1].patch_index = Some((1, 0));
    let mut s = UiState::new();
    s.cut_mode = CutMode::Grid;
    let m = run(&mut s, &base, 2, Vec::new(), (true, Vec::new())).unwrap();
    assert_eq!(m.faces[0].patch_index, base.faces[0].patch_index);
    assert_eq!(m.faces[1].patch_index, Some((1, 0)));
    assert_eq!(s.patch_visible, vec![true; 2]);
}

#[test]
fn malformed_mesh_is_refused() {
    let mut base = grid(2, 2);
    base.half_edges[0].next = HalfEdgeId(base.half_edges.len() + 5);
    let mut s = UiState::new();
    s.patch_visible = vec![false; 3];
    assert!(run(&mut s, &base, 0, Vec::new(), (true, Vec::new())).is_none());
    assert_eq!(s.patch_visible, vec![false; 3]);
}

#[test]
fn grid_cut_labels_faces_from_their_cells() {
    let base = grid(2, 1);
    let mut s = UiState::new();
    s.cut_mode = CutMode::Grid;
    s.cut_loops = UiState::generate_loops(2, 1);
    for l in &mut s.cut_loops {
        l.cut = true;
    }
    let m = run(&mut s, &base, 0, vec![Some((0, 0)), Some((1, 0))], (true, Vec::new())).unwrap();
    assert_eq!(m.faces[0].patch_index, Some((0, 0)));
    assert_eq!(m.faces[1].patch_index, Some((1, 0)));
    assert_eq!(s.patch_visible.len(), 2);
}

#[test]
fn knot_cut_labels_faces_by_class() {
    let base = grid(3, 1);
    let mut s = UiState::new();
    s.cut_mode = CutMode::Knot;
    s.knot_cut_1 = true;
    s.knot_cut_2 = true;
    let m = run(&mut s, &base, 0, Vec::new(), (false, vec![Some(5), Some(2), Some(5)])).unwrap();
    assert_eq!(m.faces[0].patch_index, Some((1, 0)));
    assert_eq!(m.faces[1].patch_index, Some((0, 0)));
    assert_eq!(m.faces[2].patch_index, Some((1, 0)));
    assert_eq!(s.patch_visible, vec![true; 2]);
}

#[test]
fn default_knot_pair_gives_three_regions() {
    let s = UiState::new();
    assert_eq!((s.knot_k1, s.knot_k2), (3, 6));
    assert_eq!(s.knot_k2 - s.knot_k1, 3);
    let d = UiState::default();
    assert_eq!((d.knot_k1, d.knot_k2), (3, 6));
}
