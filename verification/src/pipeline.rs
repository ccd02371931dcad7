//! Applying the panel's cut settings to a base mesh: which cut runs, how
//! the patches are labelled, and how many patch visibility slots there are.
//! Where the curves lie and which patch or knot class a face belongs to is
//! geometry, handed in through closures.
use vstd::prelude::*;
use crate::mesh::cut::{cut_mesh_by_grid, grid_cut_result, keeps, lemma_keeps_refl, TriangleIntersection};
use crate::mesh::half_edge::{FaceId, HEFace, HalfEdgeId, HalfEdgeMesh, VertexId};
use crate::mesh::knot::{cut_mesh_by_knots, grows, knot_cut_result, BoundaryPlacement, ChordCrossing};
use crate::mesh::regions::{assign_connected_components_knot, classes_applied};
use crate::ui::panel::{CutMode, MeshType, UiState};

verus! {

/// Whether the settings ask for a cut: a loop marked for cutting in grid
/// mode, a knot marked for cutting in knot mode.
pub open spec fn cuts_requested(s: UiState) -> bool {
    match s.cut_mode {
        CutMode::Grid => exists|i: int| 0 <= i < s.cut_loops@.len() && (#[trigger] s.cut_loops@[i]).cut,
        CutMode::Knot => s.knot_cut_1 || s.knot_cut_2,
    }
}

/// `m` is `c` with at most the patch and region labels of faces changed.
pub open spec fn labels_only(c: HalfEdgeMesh, m: HalfEdgeMesh) -> bool {
    &&& m.vertices@ == c.vertices@
    &&& m.half_edges@ == c.half_edges@
    &&& m.nf() == c.nf()
    &&& forall|f: int|
        0 <= f < c.nf() ==> (#[trigger] m.faces@[f]).half_edge == c.faces@[f].half_edge && m.faces@[f].valid
            == c.faces@[f].valid
}

/// `a` and `b` hold the same vertices, half-edges and faces.
pub open spec fn same_mesh(a: HalfEdgeMesh, b: HalfEdgeMesh) -> bool {
    &&& a.vertices@ == b.vertices@
    &&& a.half_edges@ == b.half_edges@
    &&& a.faces@ == b.faces@
}

/// Relabelling faces keeps a mesh well-formed.
pub proof fn lemma_labels_only_wf(c: HalfEdgeMesh, m: HalfEdgeMesh)
    requires
        labels_only(c, m),
        c.wf(),
    ensures
        m.wf(),
{
    assert forall|h: int| 0 <= h < m.nh() implies #[trigger] m.link_ok(h) by {
        assert(c.link_ok(h));
        let e = c.half_edges@[h];
        assert(m.faces@[e.face.0 as int].valid == c.faces@[e.face.0 as int].valid);
    }
    assert forall|f: int| 0 <= f < m.nf() implies #[trigger] m.face_ok(f) by {
        assert(c.face_ok(f));
        let _ = m.faces@[f];
    }
    assert forall|v: int| 0 <= v < m.nv() implies #[trigger] m.vertex_ok(v) by {
        assert(c.vertex_ok(v));
    }
    assert forall|f: int| 0 <= f < m.nf() implies (#[trigger] m.faces@[f]).half_edge.0 < m.nh() by {
        let _ = c.faces@[f];
    }
    assert(m.next_bounded());
    assert(m.outgoing_bounded());
    assert(m.bounded());
}

/// Face `f` of `m0` given patch `p` when it is valid and `p` is given.
pub open spec fn patched_face(m0: HalfEdgeMesh, f: int, p: Option<(usize, usize)>) -> HEFace {
    match p {
        Some(q) => if m0.faces@[f].valid {
            HEFace { patch_index: Some(q), ..m0.faces@[f] }
        } else {
            m0.faces@[f]
        },
        None => m0.faces@[f],
    }
}

/// Gives each valid face `f` the patch `labels[f]`, where there is one.
fn set_face_patches(mesh: &mut HalfEdgeMesh, labels: &Vec<Option<(usize, usize)>>)
    ensures
        final(mesh).vertices@ == old(mesh).vertices@,
        final(mesh).half_edges@ == old(mesh).half_edges@,
        final(mesh).nf() == old(mesh).nf(),
        forall|f: int|
            0 <= f < old(mesh).nf() ==> #[trigger] final(mesh).faces@[f] == patched_face(
                *old(mesh),
                f,
                if f < labels@.len() {
                    labels@[f]
                } else {
                    None
                },
            ),
{
    let nf = mesh.faces.len();
    let mut f: usize = 0;
    while f < nf
        invariant
            nf == old(mesh).nf(),
            f <= nf,
            mesh.vertices@ == old(mesh).vertices@,
            mesh.half_edges@ == old(mesh).half_edges@,
            mesh.nf() == nf,
            forall|g: int|
                0 <= g < f ==> #[trigger] mesh.faces@[g] == patched_face(
                    *old(mesh),
                    g,
                    if g < labels@.len() {
                        labels@[g]
                    } else {
                        None
                    },
                ),
            forall|g: int| f <= g < nf ==> #[trigger] mesh.faces@[g] == old(mesh).faces@[g],
        decreases nf - f,
    {
        if f < labels.len() && mesh.faces[f].valid {
            match labels[f] {
                Some(p) => {
                    let face = mesh.faces[f];
                    mesh.faces.set(f, HEFace { patch_index: Some(p), ..face });
                },
                None => {},
            }
        }
        f = f + 1;
    }
}

/// Gives every valid face patch `(0, 0)`.
fn set_default_patch(mesh: &mut HalfEdgeMesh)
    ensures
        final(mesh).vertices@ == old(mesh).vertices@,
        final(mesh).half_edges@ == old(mesh).half_edges@,
        final(mesh).nf() == old(mesh).nf(),
        forall|f: int|
            0 <= f < old(mesh).nf() ==> #[trigger] final(mesh).faces@[f] == patched_face(*old(mesh), f, Some((0usize, 0usize))),
{
    let nf = mesh.faces.len();
    let mut f: usize = 0;
    while f < nf
        invariant
            nf == old(mesh).nf(),
            f <= nf,
            mesh.vertices@ == old(mesh).vertices@,
            mesh.half_edges@ == old(mesh).half_edges@,
            mesh.nf() == nf,
            forall|g: int| 0 <= g < f ==> #[trigger] mesh.faces@[g] == patched_face(*old(mesh), g, Some((0usize, 0usize))),
            forall|g: int| f <= g < nf ==> #[trigger] mesh.faces@[g] == old(mesh).faces@[g],
        decreases nf - f,
    {
        if mesh.faces[f].valid {
            let face = mesh.faces[f];
            mesh.faces.set(f, HEFace { patch_index: Some((0, 0)), ..face });
        }
        f = f + 1;
    }
}

/// The largest first patch coordinate among the valid, labelled faces
/// below `n` (0 when there is none).
pub open spec fn max_patch_u(m: HalfEdgeMesh, n: int) -> nat
    decreases n,
{
    if n <= 0 {
        0
    } else {
        let rest = max_patch_u(m, n - 1);
        let f = m.faces@[n - 1];
        match f.patch_index {
            Some(p) => if f.valid && p.0 > rest {
                p.0 as nat
            } else {
                rest
            },
            None => rest,
        }
    }
}

/// Number of patch slots in knot mode: one more than the largest first
/// patch coordinate of a valid face (kept at `usize::MAX` at the top).
pub open spec fn knot_slots(m: HalfEdgeMesh) -> nat {
    let x = max_patch_u(m, m.nf());
    if x < usize::MAX {
        x + 1
    } else {
        x
    }
}

fn knot_slot_count(mesh: &HalfEdgeMesh) -> (r: usize)
    ensures
        r == knot_slots(*mesh),
{
    let mut best: usize = 0;
    let mut f: usize = 0;
    while f < mesh.faces.len()
        invariant
            f <= mesh.nf(),
            best == max_patch_u(*mesh, f as int),
        decreases mesh.nf() - f,
    {
        let face = mesh.faces[f];
        if face.valid {
            match face.patch_index {
                Some(p) => {
                    if p.0 > best {
                        best = p.0;
                    }
                },
                None => {},
            }
        }
        f = f + 1;
    }
    if best < usize::MAX {
        best + 1
    } else {
        best
    }
}

/// `n` flags, all set.
fn all_set(n: usize) -> (r: Vec<bool>)
    ensures
        r@.len() == n,
        forall|i: int| 0 <= i < n ==> #[trigger] r@[i],
{
    let mut r: Vec<bool> = Vec::new();
    let mut i: usize = 0;
    while i < n
        invariant
            i <= n,
            r@.len() == i,
            forall|j: int| 0 <= j < i ==> #[trigger] r@[j],
        decreases n - i,
    {
        r.push(true);
        i = i + 1;
    }
    r
}

/// Cuts a copy of `base` as the settings say and labels its patches.
///
/// A mesh that is not well-formed is refused (`None`, settings unchanged).
/// Otherwise, when the settings ask for a cut: in grid mode, with at least
/// one line (`num_u` of the `u` family, `num_v` of the `v` family, met as
/// `intersect` says), the grid cut runs, finishing with triangulation for a
/// Delaunay mesh, and each valid face gets the patch `grid_patch` gives it;
/// in knot mode the knot cut runs and the faces are labelled by the classes
/// `classify` gives (see `assign_connected_components_knot`). The cut mesh
/// is what the cut promises for the base (see `grid_cut_result` and
/// `knot_cut_result`), relabelled. Without a cut,
/// every valid face gets patch `(0, 0)` unless the mesh came from
/// `obj_files` files, whose patches stay. The patch visibility flags are
/// reset, all set: one per file for uncut multi-file meshes, otherwise one
/// per grid cell, and in knot mode one more than the largest first patch
/// coordinate of a valid face.
pub fn apply_cuts<I, M, P, O, C, G, K>(
    state: &mut UiState,
    base: &HalfEdgeMesh,
    obj_files: usize,
    num_u: usize,
    num_v: usize,
    intersect: &I,
    meets: &M,
    place: &P,
    order: &O,
    crossing: &C,
    grid_patch: &G,
    classify: &K,
) -> (r: Option<HalfEdgeMesh>) where
    I: Fn(bool, usize, &Vec<(usize, glam::Vec2, glam::Vec3)>) -> Option<TriangleIntersection>,
    M: Fn(&Vec<(usize, glam::Vec2, glam::Vec3)>) -> Vec<(usize, TriangleIntersection)>,
    P: Fn(&HalfEdgeMesh, FaceId, &Vec<HalfEdgeId>, glam::Vec3) -> BoundaryPlacement,
    O: Fn(&HalfEdgeMesh, FaceId, &Vec<VertexId>, usize) -> Vec<VertexId>,
    C: Fn(&HalfEdgeMesh, VertexId, VertexId) -> Option<ChordCrossing>,
    G: Fn(&HalfEdgeMesh) -> Vec<Option<(usize, usize)>>,
    K: Fn(&HalfEdgeMesh) -> (bool, Vec<Option<usize>>),

    requires
        old(state).cut_grid_dims_spec().0 * old(state).cut_grid_dims_spec().1 <= usize::MAX,
        forall|u: bool, i: usize, c: &Vec<(usize, glam::Vec2, glam::Vec3)>| #[trigger] intersect.requires((u, i, c)),
        forall|c: &Vec<(usize, glam::Vec2, glam::Vec3)>| #[trigger] meets.requires((c,)),
        forall|m: &HalfEdgeMesh, f: FaceId, p: &Vec<HalfEdgeId>, x: glam::Vec3| #[trigger] place.requires((m, f, p, x)),
        forall|m: &HalfEdgeMesh, f: FaceId, p: &Vec<VertexId>, k: usize| #[trigger] order.requires((m, f, p, k)),
        forall|m: &HalfEdgeMesh, x: VertexId, y: VertexId| #[trigger] crossing.requires((m, x, y)),
        forall|m: &HalfEdgeMesh| #[trigger] grid_patch.requires((m,)),
        forall|m: &HalfEdgeMesh| #[trigger] classify.requires((m,)),
    ensures
        r is None <==> !base.wf(),
        r is None ==> *final(state) == *old(state),
        r is Some ==> *final(state) == (UiState { patch_visible: final(state).patch_visible, ..*old(state) }),
        r is Some ==> forall|i: int| 0 <= i < final(state).patch_visible@.len() ==> #[trigger] final(state).patch_visible@[i],
        r matches Some(m) ==> {
            &&& m.wf()
            &&& exists|c: HalfEdgeMesh|
                #[trigger] labels_only(c, m) && c.wf() && if old(state).cut_mode == CutMode::Knot {
                    grows(*base, c)
                } else {
                    keeps(*base, c)
                }
            &&& final(state).patch_visible@.len() == if old(state).cut_mode == CutMode::Knot {
                knot_slots(m) as int
            } else if obj_files > 0 && !cuts_requested(*old(state)) {
                obj_files as int
            } else {
                old(state).cut_grid_dims_spec().0 * old(state).cut_grid_dims_spec().1
            }
        },
        r matches Some(m) ==> (!cuts_requested(*old(state)) && obj_files > 0 ==> m.vertices@ == base.vertices@
            && m.half_edges@ == base.half_edges@ && m.faces@ == base.faces@),
        r matches Some(m) ==> (!cuts_requested(*old(state)) && obj_files == 0 ==> m.vertices@ == base.vertices@
            && m.half_edges@ == base.half_edges@ && m.nf() == base.nf() && forall|f: int|
            0 <= f < base.nf() ==> #[trigger] m.faces@[f] == patched_face(*base, f, Some((0usize, 0usize)))),
        r matches Some(m) ==> (cuts_requested(*old(state)) && old(state).cut_mode == CutMode::Grid ==> exists|
            m0: HalfEdgeMesh,
            c: HalfEdgeMesh,
            labels: Vec<Option<(usize, usize)>>,
        |
            #![trigger same_mesh(m0, *base), grid_patch.ensures((&c,), labels)]
            same_mesh(m0, *base) && grid_patch.ensures((&c,), labels) && keeps(*base, c) && c.wf()
                && crate::mesh::euler::euler_characteristic(c) == crate::mesh::euler::euler_characteristic(*base) && (num_u
                > 0 || num_v > 0 ==> grid_cut_result(m0, c, num_u, num_v, intersect, old(state).mesh_type is Delaunay)) && (
            num_u == 0 && num_v == 0 ==> same_mesh(c, *base)) && m.vertices@ == c.vertices@
                && m.half_edges@ == c.half_edges@ && m.nf() == c.nf() && forall|f: int|
                0 <= f < c.nf() ==> #[trigger] m.faces@[f] == patched_face(
                    c,
                    f,
                    if f < labels@.len() {
                        labels@[f]
                    } else {
                        None
                    },
                )),
        r matches Some(m) ==> (cuts_requested(*old(state)) && old(state).cut_mode == CutMode::Knot ==> exists|
            m0: HalfEdgeMesh,
            c: HalfEdgeMesh,
            single: bool,
            classes: Vec<Option<usize>>,
        |
            #![trigger same_mesh(m0, *base), classify.ensures((&c,), (single, classes))]
            same_mesh(m0, *base) && classify.ensures((&c,), (single, classes)) && knot_cut_result(m0, c, meets, place)
                && grows(*base, c) && c.wf() && (classes@.len()
                == c.nf() ==> (single ==> m.vertices@ == c.vertices@ && m.half_edges@ == c.half_edges@ && m.nf()
                == c.nf() && forall|f: int|
                0 <= f < c.nf() ==> #[trigger] m.faces@[f] == if c.faces@[f].valid {
                    HEFace { component_id: Some(0usize), patch_index: Some((0usize, 0usize)), ..c.faces@[f] }
                } else {
                    c.faces@[f]
                }) && (!single ==> exists|s: Seq<usize>| #[trigger] classes_applied(c, m, classes@, s))) && (
            classes@.len() != c.nf() ==> m.vertices@ == c.vertices@ && m.half_edges@ == c.half_edges@ && m.faces@
                == c.faces@)),
{
    if !base.is_well_formed() {
        return None;
    }
    let mut mesh = base.copy();
    let ghost start = mesh;
    proof {
        assert(same_mesh(start, *base));
        crate::mesh::delaunay::lemma_same_views_wf(*base, mesh);
        lemma_keeps_refl(*base);
        assert(keeps(*base, mesh));
        crate::mesh::knot::lemma_grows_refl(*base);
        assert(grows(*base, mesh));
    }
    let cutting = state.has_cut_loops();
    if cutting {
        match state.cut_mode {
            CutMode::Grid => {
                if num_u > 0 || num_v > 0 {
                    let finalize = match &state.mesh_type {
                        MeshType::Delaunay => true,
                        _ => false,
                    };
                    let ghost before = mesh;
                    cut_mesh_by_grid(&mut mesh, num_u, num_v, intersect, finalize);
                    proof {
                        crate::mesh::cut::lemma_keeps_trans(*base, before, mesh);
                        assert(grid_cut_result(start, mesh, num_u, num_v, intersect, state.mesh_type is Delaunay));
                    }
                }
            },
            CutMode::Knot => {
                let ghost before = mesh;
                cut_mesh_by_knots(&mut mesh, meets, place, order, crossing);
                proof {
                    crate::mesh::knot::lemma_grows_trans(*base, before, mesh);
                    assert(knot_cut_result(start, mesh, meets, place));
                }
            },
        }
    }
    let ghost cut = mesh;
    proof {
        assert(state.cut_mode == CutMode::Knot ==> grows(*base, cut));
        assert(state.cut_mode == CutMode::Grid ==> keeps(*base, cut));
        assert(state.cut_mode == CutMode::Grid ==> crate::mesh::euler::euler_characteristic(cut)
            == crate::mesh::euler::euler_characteristic(*base));
    }
    let (pu, pv) = state.cut_grid_dims();
    let slot = if obj_files > 0 && !cutting {
        obj_files
    } else {
        pu * pv
    };
    state.patch_visible = all_set(slot);
    if cutting {
        match state.cut_mode {
            CutMode::Grid => {
                let labels = grid_patch(&mesh);
                set_face_patches(&mut mesh, &labels);
                proof {
                    assert(labels_only(cut, mesh));
                }
            },
            CutMode::Knot => {
                let (single, classes) = classify(&mesh);
                if classes.len() == mesh.faces.len() {
                    assign_connected_components_knot(&mut mesh, single, classes.as_slice());
                    proof {
                        if !single {
                            let s = choose|s: Seq<usize>| #[trigger] classes_applied(cut, mesh, classes@, s);
                            assert forall|f: int| 0 <= f < cut.nf() implies (#[trigger] mesh.faces@[f]).half_edge
                                == cut.faces@[f].half_edge && mesh.faces@[f].valid == cut.faces@[f].valid by {
                                assert(classes_applied(cut, mesh, classes@, s));
                            }
                        }
                        assert(labels_only(cut, mesh));
                    }
                } else {
                    proof {
                        assert(labels_only(cut, mesh));
                    }
                }
            },
        }
    } else if obj_files == 0 {
        set_default_patch(&mut mesh);
        proof {
            assert(labels_only(cut, mesh));
        }
    } else {
        proof {
            assert(labels_only(cut, mesh));
        }
    }
    proof {
        lemma_labels_only_wf(cut, mesh);
    }
    if state.cut_mode == CutMode::Knot {
        state.patch_visible = all_set(knot_slot_count(&mesh));
    }
    Some(mesh)
}

} // verus!
