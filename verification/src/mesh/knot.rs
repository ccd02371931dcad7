//! Cutting a mesh along torus-knot curves. Each face is cut by all curves
//! at once: where a branch of a curve meets the face's boundary a vertex is
//! inserted (or an existing corner reused), the points of each branch are
//! joined in order along it, and where two chords cross inside a face a
//! vertex is inserted at the crossing so that the curves cross there.
//!
//! Where the curves lie is geometry, which the caller computes and hands in
//! through closures: where the branches meet a face, where on the boundary a
//! curve point goes, in which order a branch visits its points, and where a
//! chord crosses an existing cut edge. Everything done with the answers here
//! is topology, checked against the mesh before it is used.
use vstd::prelude::*;
use crate::mesh::cut::{
    face_has_corner, first_face_with, has_corner, watertight, edge_marked, face_corners, faces_around, joins, find_face_with_both, get_face_uvs, keeps, lemma_keeps_split_edge,
    lemma_keeps_split_face, mark_edge_cut_anywhere, mark_edge_cut_between, TriangleIntersection,
};
use crate::mesh::fan::fan_relation;
use crate::mesh::half_edge::{none_id, FaceId, HalfEdge, HalfEdgeId, HalfEdgeMesh, VertexId};

verus! {

/// What every step of knot cutting keeps of the links: each half-edge keeps
/// its origin, and its next half-edge, its face and each face's first
/// half-edge are either as they were in `m0` or newer than anything in it.
pub open spec fn links_grow(m0: HalfEdgeMesh, m1: HalfEdgeMesh) -> bool {
    &&& forall|x: int|
        0 <= x < m0.nh() ==> (#[trigger] m1.half_edges@[x]).origin == m0.half_edges@[x].origin && (
        m1.half_edges@[x].next == m0.half_edges@[x].next || m1.half_edges@[x].next.0 >= m0.nh()) && (
        m1.half_edges@[x].face == m0.half_edges@[x].face || m1.half_edges@[x].face.0 >= m0.nf())
    &&& forall|f: int|
        0 <= f < m0.nf() ==> (#[trigger] m1.faces@[f]).half_edge == m0.faces@[f].half_edge || m1.faces@[f].half_edge.0
            >= m0.nh()
}

/// What every step of knot cutting keeps: existing vertices keep their
/// position and coordinates, existing faces their validity and patch,
/// nothing is removed, an edge once on a cut stays on it, links only change
/// to new elements (see `links_grow`), and a mesh without boundary gets
/// none.
pub open spec fn grows(m0: HalfEdgeMesh, m1: HalfEdgeMesh) -> bool {
    &&& watertight(m0) ==> watertight(m1)
    &&& m0.nv() <= m1.nv()
    &&& m0.nh() <= m1.nh()
    &&& m0.nf() <= m1.nf()
    &&& forall|v: int|
        0 <= v < m0.nv() ==> (#[trigger] m1.vertices@[v]).position == m0.vertices@[v].position && m1.vertices@[v].uv
            == m0.vertices@[v].uv
    &&& forall|f: int|
        0 <= f < m0.nf() ==> (#[trigger] m1.faces@[f]).valid == m0.faces@[f].valid && m1.faces@[f].patch_index
            == m0.faces@[f].patch_index
    &&& forall|x: int| 0 <= x < m0.nh() ==> m0.half_edges@[x].cut ==> (#[trigger] m1.half_edges@[x]).cut
    &&& links_grow(m0, m1)
}

/// Cut marks only ever get added: knot cutting never takes a half-edge off a
/// cut, and keeps every vertex, face and half-edge it found.
pub proof fn lemma_grows_trans(m0: HalfEdgeMesh, m1: HalfEdgeMesh, m2: HalfEdgeMesh)
    requires
        grows(m0, m1),
        grows(m1, m2),
    ensures
        grows(m0, m2),
{
    assert forall|v: int| 0 <= v < m0.nv() implies (#[trigger] m2.vertices@[v]).position == m0.vertices@[v].position
        && m2.vertices@[v].uv == m0.vertices@[v].uv by {
        let _ = m1.vertices@[v];
    }
    assert forall|f: int| 0 <= f < m0.nf() implies (#[trigger] m2.faces@[f]).valid == m0.faces@[f].valid
        && m2.faces@[f].patch_index == m0.faces@[f].patch_index by {
        let _ = m1.faces@[f];
    }
    assert forall|x: int| 0 <= x < m0.nh() && m0.half_edges@[x].cut implies (#[trigger] m2.half_edges@[x]).cut by {
        let _ = m1.half_edges@[x];
    }
    assert forall|x: int| 0 <= x < m0.nh() implies (#[trigger] m2.half_edges@[x]).origin == m0.half_edges@[x].origin && (
    m2.half_edges@[x].next == m0.half_edges@[x].next || m2.half_edges@[x].next.0 >= m0.nh()) && (m2.half_edges@[x].face
        == m0.half_edges@[x].face || m2.half_edges@[x].face.0 >= m0.nf()) by {
        let _ = m1.half_edges@[x];
    }
    assert forall|f: int| 0 <= f < m0.nf() implies (#[trigger] m2.faces@[f]).half_edge == m0.faces@[f].half_edge
        || m2.faces@[f].half_edge.0 >= m0.nh() by {
        let _ = m1.faces@[f];
    }
}

proof fn lemma_keeps_grows(m0: HalfEdgeMesh, m1: HalfEdgeMesh)
    requires
        keeps(m0, m1),
        links_grow(m0, m1),
    ensures
        grows(m0, m1),
{
}

pub proof fn lemma_grows_refl(m: HalfEdgeMesh)
    ensures
        grows(m, m),
{
}

/// Marking an edge as cut only adds cut marks.
proof fn lemma_marked_grows(m0: HalfEdgeMesh, m1: HalfEdgeMesh, face: int, a: VertexId, b: VertexId, r: bool)
    requires
        edge_marked(m0, m1, face, a, b, r),
    ensures
        grows(m0, m1),
{
    let c = m0.face_walk(face);
    if r {
        let j = choose|j: int|
            0 <= j < c.len() && joins(m0, c[j], a, b) && (forall|i: int| 0 <= i < j ==> !joins(m0, #[trigger] c[i], a, b))
                && forall|x: int|
                0 <= x < m0.nh() ==> (#[trigger] m1.half_edges@[x]).cut == (m0.half_edges@[x].cut || x == c[j].0 || x
                    == m0.half_edges@[c[j].0 as int].twin.0);
        assert forall|x: int| 0 <= x < m0.nh() && m0.half_edges@[x].cut implies (#[trigger] m1.half_edges@[x]).cut by {}
    }
    assert forall|x: int| 0 <= x < m1.nh() && watertight(m0) implies (#[trigger] m1.half_edges@[x]).twin.0 != none_id() by {
        assert(m1.half_edges@[x].twin == m0.half_edges@[x].twin);
    }
    assert forall|x: int| 0 <= x < m0.nh() implies (#[trigger] m1.half_edges@[x]).origin == m0.half_edges@[x].origin && (
    m1.half_edges@[x].next == m0.half_edges@[x].next || m1.half_edges@[x].next.0 >= m0.nh()) && (m1.half_edges@[x].face
        == m0.half_edges@[x].face || m1.half_edges@[x].face.0 >= m0.nf()) by {
        assert(m1.half_edges@[x] == (HalfEdge { cut: m1.half_edges@[x].cut, ..m0.half_edges@[x] }));
    }
}

/// An edge split only links to the new half-edges.
proof fn lemma_split_edge_links(m0: HalfEdgeMesh, m1: HalfEdgeMesh, h: int, v: VertexId, position: glam::Vec3, uv: glam::Vec2)
    requires
        3 * m0.nh() + 3 < usize::MAX,
        m0.nf() + m0.nh() + 1 < usize::MAX,
        crate::mesh::half_edge::split_edge_relation(m0, m1, h, v, position, uv),
    ensures
        links_grow(m0, m1),
{
    assert forall|x: int| 0 <= x < m0.nh() implies (#[trigger] m1.half_edges@[x]).origin == m0.half_edges@[x].origin && (
    m1.half_edges@[x].next == m0.half_edges@[x].next || m1.half_edges@[x].next.0 >= m0.nh()) && (m1.half_edges@[x].face
        == m0.half_edges@[x].face || m1.half_edges@[x].face.0 >= m0.nf()) by {
        let _ = m1.half_edges@[x];
    }
}

/// A face split only links to the new half-edges and the new face.
proof fn lemma_split_face_links(m0: HalfEdgeMesh, m1: HalfEdgeMesh, face: int, va: VertexId, vb: VertexId, cut_edge: bool)
    requires
        0 <= face < m0.nf(),
        3 * m0.nh() + 3 < usize::MAX,
        m0.nf() + m0.nh() + 1 < usize::MAX,
        m0.wf(),
        m0.faces@[face].valid,
        crate::mesh::face_split::split_face_relation(m0, m1, face, va, vb, cut_edge),
    ensures
        links_grow(m0, m1),
{
    let c = m0.face_walk(face);
    m0.lemma_face_walk_ok(face);
    m0.lemma_walk_same_face(c, m0.faces@[face].half_edge, m0.nh() + 1);
    assert(m0.face_ok(face));
    assert forall|x: int| 0 <= x < m0.nh() implies (#[trigger] m1.half_edges@[x]).origin == m0.half_edges@[x].origin && (
    m1.half_edges@[x].next == m0.half_edges@[x].next || m1.half_edges@[x].next.0 >= m0.nh()) && (m1.half_edges@[x].face
        == m0.half_edges@[x].face || m1.half_edges@[x].face.0 >= m0.nf()) by {
        let _ = m1.half_edges@[x];
        if c.contains(HalfEdgeId(x as usize)) {
            let j = choose|j: int| 0 <= j < c.len() && c[j] == HalfEdgeId(x as usize);
            let _ = m1.half_edges@[c[j].0 as int];
        }
    }
    assert forall|f: int| 0 <= f < m0.nf() implies (#[trigger] m1.faces@[f]).half_edge == m0.faces@[f].half_edge
        || m1.faces@[f].half_edge.0 >= m0.nh() by {
        if f != face {
            assert(m1.faces@[f] == m0.faces@[f]);
        }
    }
}

/// Inserting a vertex inside a face only links to the new half-edges and
/// faces.
proof fn lemma_fan_links(m0: HalfEdgeMesh, m1: HalfEdgeMesh, face: int, position: glam::Vec3, uv: glam::Vec2)
    requires
        0 <= face < m0.nf(),
        3 * m0.nh() + 3 < usize::MAX,
        m0.nf() + m0.nh() + 1 < usize::MAX,
        m0.wf(),
        m0.faces@[face].valid,
        fan_relation(m0, m1, face, position, uv),
    ensures
        links_grow(m0, m1),
{
    let c = m0.face_walk(face);
    m0.lemma_face_walk_ok(face);
    m0.lemma_walk_same_face(c, m0.faces@[face].half_edge, m0.nh() + 1);
    assert(m0.face_ok(face));
    assert forall|x: int| 0 <= x < m0.nh() implies (#[trigger] m1.half_edges@[x]).origin == m0.half_edges@[x].origin && (
    m1.half_edges@[x].next == m0.half_edges@[x].next || m1.half_edges@[x].next.0 >= m0.nh()) && (m1.half_edges@[x].face
        == m0.half_edges@[x].face || m1.half_edges@[x].face.0 >= m0.nf()) by {
        if c.contains(HalfEdgeId(x as usize)) {
            let i = choose|i: int| 0 <= i < c.len() && c[i] == HalfEdgeId(x as usize);
            let _ = m1.half_edges@[c[i].0 as int];
        } else {
            assert(m1.half_edges@[x] == m0.half_edges@[x]);
        }
    }
    assert forall|f: int| 0 <= f < m0.nf() implies (#[trigger] m1.faces@[f]).half_edge == m0.faces@[f].half_edge
        || m1.faces@[f].half_edge.0 >= m0.nh() by {
        if f != face {
            assert(m1.faces@[f] == m0.faces@[f]);
        }
    }
}

/// Inserting a vertex inside a face keeps what `keeps` asks for.
proof fn lemma_keeps_fan(m0: HalfEdgeMesh, m1: HalfEdgeMesh, face: int, position: glam::Vec3, uv: glam::Vec2)
    requires
        0 <= face < m0.nf(),
        m0.nh() < usize::MAX,
        m0.face_walk(face).len() >= 1,
        fan_relation(m0, m1, face, position, uv),
    ensures
        keeps(m0, m1),
{
    let c = m0.face_walk(face);
    assert forall|v: int| 0 <= v < m0.nv() implies (#[trigger] m1.vertices@[v]).position == m0.vertices@[v].position
        && m1.vertices@[v].uv == m0.vertices@[v].uv by {
        let _ = m1.vertices@[v];
    }
    assert forall|f: int| 0 <= f < m0.nf() implies (#[trigger] m1.faces@[f]).valid == m0.faces@[f].valid
        && m1.faces@[f].patch_index == m0.faces@[f].patch_index by {
        if f != face {
            assert(m1.faces@[f] == m0.faces@[f]);
        }
    }
    assert forall|x: int| 0 <= x < m0.nh() implies (#[trigger] m1.half_edges@[x]).cut == m0.half_edges@[x].cut by {
        if c.contains(HalfEdgeId(x as usize)) {
            let i = choose|i: int| 0 <= i < c.len() && c[i] == HalfEdgeId(x as usize);
            assert(m1.half_edges@[c[i].0 as int].cut == m0.half_edges@[c[i].0 as int].cut);
        } else {
            assert(m1.half_edges@[x] == m0.half_edges@[x]);
        }
    }
    if watertight(m0) {
        assert(m1.half_edges.len() == m1.nh());
        assert forall|x: int| 0 <= x < m1.nh() implies (#[trigger] m1.half_edges@[x]).twin.0 != none_id() by {
            if x < m0.nh() {
                let _ = m0.half_edges@[x];
                if c.contains(HalfEdgeId(x as usize)) {
                    let i = choose|i: int| 0 <= i < c.len() && c[i] == HalfEdgeId(x as usize);
                    assert(m1.half_edges@[c[i].0 as int].twin == m0.half_edges@[c[i].0 as int].twin);
                } else {
                    assert(m1.half_edges@[x] == m0.half_edges@[x]);
                }
            } else if x < m0.nh() + c.len() {
                let _ = m1.half_edges@[m0.nh() + (x - m0.nh())];
            } else {
                let _ = m1.half_edges@[m0.nh() + c.len() + (x - m0.nh() - c.len())];
            }
        }
    }
}


/// Puts half-edge `h` on a cut.
fn set_on_cut(mesh: &mut HalfEdgeMesh, h: usize)
    requires
        old(mesh).wf(),
        h < old(mesh).nh(),
    ensures
        final(mesh).wf(),
        grows(*old(mesh), *final(mesh)),
        final(mesh).half_edges@ == old(mesh).half_edges@.update(h as int, HalfEdge { cut: true, ..old(mesh).half_edges@[h as int] }),
        final(mesh).vertices@ == old(mesh).vertices@,
        final(mesh).faces@ == old(mesh).faces@,
{
    let ghost m0 = *mesh;
    mesh.set_cut(h, true);
    proof {
        assert(m0.same_but_cut(*mesh)) by {
            assert forall|x: int| 0 <= x < m0.nh() implies (#[trigger] mesh.half_edges@[x]) == (HalfEdge {
                cut: mesh.half_edges@[x].cut,
                ..m0.half_edges@[x]
            }) by {}
        }
        m0.lemma_same_but_cut(*mesh);
        assert forall|x: int| 0 <= x < mesh.nh() && watertight(m0) implies (#[trigger] mesh.half_edges@[x]).twin.0
            != none_id() by {
            assert(mesh.half_edges@[x].twin == m0.half_edges@[x].twin);
        }
    }
}

/// Where a chord crosses a cut edge already in the mesh: inside `face`, the
/// cut edge from `o` to `nb`, at `position` with coordinates `uv`.
pub struct ChordCrossing {
    pub face: FaceId,
    pub o: VertexId,
    pub nb: VertexId,
    pub position: glam::Vec3,
    pub uv: glam::Vec2,
}

/// Adds the cut chord from `a` to `b`. When a face round `a` (see
/// `find_face_with_both`) also has `b` as a corner, the edge `a-b` of that
/// face is marked as cut, or, if there is none, the face is split along a
/// new cut diagonal `a-b`. Otherwise the chord crosses a cut edge that is
/// already there: `crossing` says which, inside which face round `a`, and
/// where. A vertex `p` is inserted there (see `insert_interior_vertex_fan`),
/// its spokes to `a` and to the crossed edge's ends are marked as cut, and
/// the chord goes on from `p` to `b`; at most 64 crossings are followed.
/// A crossing that names no valid face ends the chord, and so does a mesh
/// too close to the limits of `usize` (see `has_room`). For `a == b`
/// nothing changes; when a face round `a` has `b` as a corner (the first
/// such face, see `first_face_with`), its edge `a-b` ends up on a cut, or
/// the new diagonal `a-b` does.
pub fn add_chord<C: Fn(&HalfEdgeMesh, VertexId, VertexId) -> Option<ChordCrossing>>(
    mesh: &mut HalfEdgeMesh,
    a: VertexId,
    b: VertexId,
    crossing: &C,
)
    requires
        old(mesh).wf(),
        a.0 < old(mesh).nv(),
        forall|m: &HalfEdgeMesh, x: VertexId, y: VertexId| #[trigger] crossing.requires((m, x, y)),
    ensures
        final(mesh).wf(),
        grows(*old(mesh), *final(mesh)),
        a == b ==> *final(mesh) == *old(mesh),
        a != b && first_face_with(*old(mesh), a, b) is Some ==> ({
            let f = first_face_with(*old(mesh), a, b)->0;
            let c = old(mesh).face_walk(f.0 as int);
            &&& (exists|j: int| 0 <= j < c.len() && joins(*old(mesh), #[trigger] c[j], a, b)) ==> exists|j: int|
                0 <= j < c.len() && joins(*old(mesh), #[trigger] c[j], a, b) && final(mesh).half_edges@[c[j].0 as int].cut
            &&& !(exists|j: int| 0 <= j < c.len() && joins(*old(mesh), #[trigger] c[j], a, b)) && old(mesh).roomy()
                && !old(mesh).split_face_refused(f.0 as int, a, b) ==> final(mesh).nf() == old(mesh).nf() + 1
                && final(mesh).half_edges@[old(mesh).nh() as int].origin == a
                && final(mesh).half_edges@[old(mesh).nh() + 1].origin == b
                && final(mesh).half_edges@[old(mesh).nh() as int].cut
                && final(mesh).half_edges@[old(mesh).nh() + 1].cut
        }),
{
    let ghost m0 = *mesh;
    proof {
        lemma_grows_refl(m0);
    }
    let mut cur = a;
    let mut depth: usize = 0;
    loop
        invariant
            m0 == *old(mesh),
            mesh.wf(),
            grows(m0, *mesh),
            cur.0 < mesh.nv(),
            depth <= 64,
            depth == 0 ==> *mesh == m0 && cur == a,
            depth > 0 ==> a != b && first_face_with(m0, a, b) is None,
            forall|m: &HalfEdgeMesh, x: VertexId, y: VertexId| #[trigger] crossing.requires((m, x, y)),
        decreases 64 - depth,
    {
        if cur == b {
            return;
        }
        match find_face_with_both(mesh, cur, b) {
            Some(f) => {
                let ghost before = *mesh;
                let marked = mark_edge_cut_between(mesh, f, cur, b);
                proof {
                    assert(edge_marked(before, *mesh, f.0 as int, cur, b, marked));
                    lemma_marked_grows(before, *mesh, f.0 as int, cur, b, marked);
                    lemma_grows_trans(m0, before, *mesh);
                    if marked && depth == 0 {
                        let c = m0.face_walk(f.0 as int);
                        let j = choose|j: int|
                            0 <= j < c.len() && joins(m0, c[j], cur, b) && (forall|i: int| 0 <= i < j ==> !joins(m0, #[trigger] c[i], cur, b))
                                && forall|x: int|
                                0 <= x < m0.nh() ==> (#[trigger] mesh.half_edges@[x]).cut == (m0.half_edges@[x].cut || x == c[j].0
                                    || x == m0.half_edges@[c[j].0 as int].twin.0);
                        assert(mesh.half_edges@[c[j].0 as int].cut);
                    }
                }
                if !marked && mesh.has_room() {
                    let ghost before2 = *mesh;
                    mesh.split_face(f, cur, b, true);
                    proof {
                        if before2.split_face_refused(f.0 as int, cur, b) {
                            lemma_grows_refl(before2);
                            assert(grows(before2, *mesh));
                        } else {
                            lemma_keeps_split_face(before2, *mesh, f.0 as int, cur, b, true);
                            lemma_split_face_links(before2, *mesh, f.0 as int, cur, b, true);
                            lemma_keeps_grows(before2, *mesh);
                        }
                        lemma_grows_trans(m0, before2, *mesh);
                    }
                }
                return;
            },
            None => {
                if depth >= 64 {
                    return;
                }
                depth = depth + 1;
                let x = match crossing(&*mesh, cur, b) {
                    Some(x) => x,
                    None => {
                        return;
                    },
                };
                if x.face.0 >= mesh.faces.len() || !mesh.faces[x.face.0].valid || !mesh.has_room() {
                    return;
                }
                let hes = mesh.face_half_edges(x.face);
                let mut origs: Vec<VertexId> = Vec::new();
                let mut k: usize = 0;
                while k < hes.len()
                    invariant
                        mesh.wf(),
                        k <= hes@.len(),
                        forall|j: int| 0 <= j < hes@.len() ==> (#[trigger] hes@[j]).0 < mesh.nh(),
                        origs@.len() == k,
                    decreases hes@.len() - k,
                {
                    origs.push(mesh.half_edges[hes[k].0].origin);
                    k = k + 1;
                }
                let ghost before = *mesh;
                let (p, spokes) = mesh.insert_interior_vertex_fan(x.face, x.position, x.uv);
                proof {
                    if before.face_walk(x.face.0 as int).len() >= 3 {
                        lemma_keeps_fan(before, *mesh, x.face.0 as int, x.position, x.uv);
                        lemma_fan_links(before, *mesh, x.face.0 as int, x.position, x.uv);
                    }
                    lemma_keeps_grows(before, *mesh);
                    lemma_grows_trans(m0, before, *mesh);
                }
                let ends = [cur, x.o, x.nb];
                let mut e: usize = 0;
                while e < 3
                    invariant
                        mesh.wf(),
                        grows(m0, *mesh),
                        p.0 < mesh.nv(),
                    decreases 3 - e,
                {
                    let v = ends[e];
                    let mut idx: usize = 0;
                    while idx < origs.len() && origs[idx] != v
                        invariant
                            idx <= origs@.len(),
                        decreases origs@.len() - idx,
                    {
                        idx = idx + 1;
                    }
                    if idx < origs.len() && idx < spokes.len() && spokes[idx].0 < mesh.half_edges.len() {
                        let h = spokes[idx].0;
                        let ghost b1 = *mesh;
                        set_on_cut(mesh, h);
                        proof {
                            lemma_grows_trans(m0, b1, *mesh);
                        }
                        let t = mesh.half_edges[h].twin.0;
                        if t != usize::MAX && t < mesh.half_edges.len() {
                            let ghost b2 = *mesh;
                            set_on_cut(mesh, t);
                            proof {
                                lemma_grows_trans(m0, b2, *mesh);
                            }
                        }
                    }
                    e = e + 1;
                }
                cur = p;
            },
        }
    }
}


/// The corner of half-edge `j` steps after position `ia` on the walk `c`
/// (round the walk).
pub open spec fn origin_after(m: HalfEdgeMesh, c: Seq<HalfEdgeId>, ia: int, j: int) -> VertexId {
    m.half_edges@[c[(ia + j) % (c.len() as int)].0 as int].origin
}

/// `i` is the first position on `c` of a half-edge leaving `v`.
pub open spec fn is_first_origin(m: HalfEdgeMesh, c: Seq<HalfEdgeId>, v: VertexId, i: int) -> bool {
    &&& 0 <= i < c.len()
    &&& m.half_edges@[c[i].0 as int].origin == v
    &&& forall|j: int| 0 <= j < i ==> m.half_edges@[(#[trigger] c[j]).0 as int].origin != v
}

/// Going round `c` from position `ia`, the first half-edge leaving `v`
/// comes `k` steps later (`1 <= k <= c.len()`).
pub open spec fn steps_to(m: HalfEdgeMesh, c: Seq<HalfEdgeId>, ia: int, v: VertexId, k: int) -> bool {
    &&& 1 <= k <= c.len()
    &&& origin_after(m, c, ia, k) == v
    &&& forall|j: int| 1 <= j < k ==> #[trigger] origin_after(m, c, ia, j) != v
}

/// The half-edges of `face` on the way from `va` to `vb`: from the first
/// half-edge of the face's walk that leaves `va`, round the walk, up to the
/// first one after it that leaves `vb`. `None` when the face has fewer than
/// two corners or the way does not exist.
pub open spec fn boundary_path(m: HalfEdgeMesh, face: int, va: VertexId, vb: VertexId) -> Option<Seq<HalfEdgeId>> {
    let c = m.face_walk(face);
    if c.len() >= 2 && exists|i: int| is_first_origin(m, c, va, i) {
        let ia = choose|i: int| is_first_origin(m, c, va, i);
        if exists|k: int| steps_to(m, c, ia, vb, k) {
            let k = choose|k: int| steps_to(m, c, ia, vb, k);
            Some(Seq::new(k as nat, |j: int| c[(ia + j) % (c.len() as int)]))
        } else {
            None
        }
    } else {
        None
    }
}

proof fn lemma_first_origin_unique(m: HalfEdgeMesh, c: Seq<HalfEdgeId>, v: VertexId, i: int, i2: int)
    requires
        is_first_origin(m, c, v, i),
        is_first_origin(m, c, v, i2),
    ensures
        i == i2,
{
    if i < i2 {
        assert(m.half_edges@[c[i].0 as int].origin != v);
    }
    if i2 < i {
        assert(m.half_edges@[c[i2].0 as int].origin != v);
    }
}

proof fn lemma_steps_unique(m: HalfEdgeMesh, c: Seq<HalfEdgeId>, ia: int, v: VertexId, k: int, k2: int)
    requires
        steps_to(m, c, ia, v, k),
        steps_to(m, c, ia, v, k2),
    ensures
        k == k2,
{
    if k < k2 {
        assert(origin_after(m, c, ia, k) != v);
    }
    if k2 < k {
        assert(origin_after(m, c, ia, k2) != v);
    }
}

/// Position `k` steps after `ia` round a walk of length `n`.
fn wrap_index(ia: usize, k: usize, n: usize) -> (r: usize)
    requires
        ia < n,
        k <= n,
    ensures
        r == (ia + k) % (n as int),
        r < n,
{
    if k < n - ia {
        proof {
            vstd::arithmetic::div_mod::lemma_small_mod((ia + k) as nat, n as nat);
        }
        ia + k
    } else {
        let r = k - (n - ia);
        proof {
            vstd::arithmetic::div_mod::lemma_small_mod(r as nat, n as nat);
            vstd::arithmetic::div_mod::lemma_mod_add_multiples_vanish(r as int, n as int);
        }
        r
    }
}

/// The way from `va` to `vb` round `face` (see `boundary_path`).
pub fn face_path(mesh: &HalfEdgeMesh, face: FaceId, va: VertexId, vb: VertexId) -> (r: Option<Vec<HalfEdgeId>>)
    requires
        mesh.bounded(),
        face.0 < mesh.nf(),
    ensures
        match r {
            Some(p) => boundary_path(*mesh, face.0 as int, va, vb) == Some(p@),
            None => boundary_path(*mesh, face.0 as int, va, vb) is None,
        },
        r matches Some(p) ==> forall|j: int| 0 <= j < p@.len() ==> (#[trigger] p@[j]).0 < mesh.nh(),
{
    let hes = mesh.face_half_edges(face);
    let ghost c = hes@;
    let n = hes.len();
    if n < 2 {
        return None;
    }
    let mut ia: usize = 0;
    while ia < n && mesh.half_edges[hes[ia].0].origin != va
        invariant
            n == c.len(),
            hes@ == c,
            c == mesh.face_walk(face.0 as int),
            forall|j: int| 0 <= j < c.len() ==> (#[trigger] c[j]).0 < mesh.nh(),
            ia <= n,
            forall|j: int| 0 <= j < ia ==> mesh.half_edges@[(#[trigger] c[j]).0 as int].origin != va,
        decreases n - ia,
    {
        ia = ia + 1;
    }
    if ia == n {
        proof {
            assert forall|i: int| !is_first_origin(*mesh, c, va, i) by {
                if 0 <= i < c.len() {
                    assert(mesh.half_edges@[c[i].0 as int].origin != va);
                }
            }
        }
        return None;
    }
    proof {
        assert(is_first_origin(*mesh, c, va, ia as int));
        let ch = choose|i: int| is_first_origin(*mesh, c, va, i);
        lemma_first_origin_unique(*mesh, c, va, ia as int, ch);
    }
    let mut k: usize = 1;
    let mut found = false;
    loop
        invariant
            n == c.len(),
            hes@ == c,
            n >= 2,
            ia < n,
            c == mesh.face_walk(face.0 as int),
            forall|j: int| 0 <= j < c.len() ==> (#[trigger] c[j]).0 < mesh.nh(),
            1 <= k <= n,
            forall|j: int| 1 <= j < k ==> #[trigger] origin_after(*mesh, c, ia as int, j) != vb,
            found ==> origin_after(*mesh, c, ia as int, k as int) == vb,
            is_first_origin(*mesh, c, va, ia as int),
            (choose|i: int| is_first_origin(*mesh, c, va, i)) == ia as int,
        ensures
            found,
        decreases n - k,
    {
        let idx = wrap_index(ia, k, n);
        if mesh.half_edges[hes[idx].0].origin == vb {
            found = true;
            break;
        }
        if k == n {
            proof {
                assert(origin_after(*mesh, c, ia as int, k as int) != vb);
                assert forall|kk: int| !steps_to(*mesh, c, ia as int, vb, kk) by {
                    if 1 <= kk <= c.len() && kk < k {
                        assert(origin_after(*mesh, c, ia as int, kk) != vb);
                    }
                }
            }
            return None;
        }
        k = k + 1;
    }
    proof {
        assert(steps_to(*mesh, c, ia as int, vb, k as int));
        let kh = choose|kk: int| steps_to(*mesh, c, ia as int, vb, kk);
        lemma_steps_unique(*mesh, c, ia as int, vb, k as int, kh);
    }
    let mut p: Vec<HalfEdgeId> = Vec::new();
    let mut j: usize = 0;
    while j < k
        invariant
            n == c.len(),
            n >= 2,
            ia < n,
            k <= n,
            j <= k,
            forall|q: int| 0 <= q < c.len() ==> (#[trigger] c[q]).0 < mesh.nh(),
            hes@ == c,
            p@ == Seq::new(j as nat, |q: int| c[(ia + q) % (n as int)]),
        decreases k - j,
    {
        p.push(hes[wrap_index(ia, j, n)]);
        proof {
            assert(p@ =~= Seq::new((j + 1) as nat, |q: int| c[(ia + q) % (n as int)]));
        }
        j = j + 1;
    }
    proof {
        assert forall|q: int| 0 <= q < p@.len() implies (#[trigger] p@[q]).0 < mesh.nh() by {
            assert(0 <= (ia + q) % (n as int) < n);
        }
    }
    Some(p)
}

/// Where a curve point on a face's boundary goes: onto a corner of the
/// face that is already there, onto a new vertex splitting half-edge number
/// `i` of the way along the boundary (see `boundary_path`) at a position, or
/// nowhere.
pub enum BoundaryPlacement {
    Corner(VertexId),
    Split(usize, glam::Vec3),
    Missing,
}

/// Whether `place` answered something that `insert_boundary_point` uses on
/// `face` with the way `path`: a corner of the face, or a split of one of the
/// way's half-edges in a mesh with room for it.
pub open spec fn usable_placement(m: HalfEdgeMesh, face: FaceId, path: Seq<HalfEdgeId>, o: BoundaryPlacement) -> bool {
    match o {
        BoundaryPlacement::Corner(v) => v.0 < m.nv() && has_corner(m, face, v),
        BoundaryPlacement::Split(i, _) => i < path.len() && m.roomy(),
        BoundaryPlacement::Missing => false,
    }
}

/// Inserts a point of a curve that meets the edge from `va` to `vb` of
/// `face`: earlier points may have split that edge already, so `place`
/// chooses among the half-edges on the way from `va` to `vb` round the face
/// (see `boundary_path`), given the point's position `pos`. A corner it
/// names is reused when it is a corner of the face; a split it names makes
/// a new vertex with coordinates `uv`. Returns the point's vertex, or
/// `None` (with the mesh unchanged) when there is no way from `va` to `vb`,
/// `place` gives no usable answer, or the mesh is too close to the limits
/// of `usize` (see `usable_placement`); a usable answer is always taken.
pub fn insert_boundary_point<P: Fn(&HalfEdgeMesh, FaceId, &Vec<HalfEdgeId>, glam::Vec3) -> BoundaryPlacement>(
    mesh: &mut HalfEdgeMesh,
    face: FaceId,
    va: VertexId,
    vb: VertexId,
    pos: glam::Vec3,
    uv: glam::Vec2,
    place: &P,
) -> (r: Option<VertexId>)
    requires
        old(mesh).wf(),
        face.0 < old(mesh).nf(),
        forall|m: &HalfEdgeMesh, f: FaceId, p: &Vec<HalfEdgeId>, x: glam::Vec3| #[trigger] place.requires((m, f, p, x)),
    ensures
        final(mesh).wf(),
        keeps(*old(mesh), *final(mesh)),
        boundary_path(*old(mesh), face.0 as int, va, vb) is None ==> r is None,
        r is None ==> *final(mesh) == *old(mesh),
        r matches Some(v) ==> v.0 < final(mesh).nv(),
        r matches Some(v) ==> (v.0 < old(mesh).nv() ==> *final(mesh) == *old(mesh) && has_corner(*old(mesh), face, v)),
        boundary_path(*old(mesh), face.0 as int, va, vb) matches Some(path) ==> ((forall|
            m: &HalfEdgeMesh,
            p: &Vec<HalfEdgeId>,
            o: BoundaryPlacement,
        |
            *m == *old(mesh) && p@ == path && #[trigger] place.ensures((m, face, p, pos), o) ==> usable_placement(
                *old(mesh),
                face,
                path,
                o,
            )) ==> r is Some),
        r matches Some(v) ==> exists|m: &HalfEdgeMesh, p: &Vec<HalfEdgeId>, o: BoundaryPlacement|
            *m == *old(mesh) && p@ == boundary_path(*old(mesh), face.0 as int, va, vb)->0 && #[trigger] place.ensures(
                (m, face, p, pos),
                o,
            ) && usable_placement(*old(mesh), face, p@, o) && match o {
                BoundaryPlacement::Corner(w) => v == w,
                BoundaryPlacement::Split(_, _) => v.0 == old(mesh).nv(),
                BoundaryPlacement::Missing => false,
            },
        r matches Some(v) ==> (v.0 >= old(mesh).nv() ==> old(mesh).roomy()),
        r matches Some(v) ==> (v.0 >= old(mesh).nv() ==> exists|i: int, q: glam::Vec3|
            0 <= i < boundary_path(*old(mesh), face.0 as int, va, vb)->0.len()
                && #[trigger] crate::mesh::half_edge::split_edge_relation(
                *old(mesh),
                *final(mesh),
                boundary_path(*old(mesh), face.0 as int, va, vb)->0[i].0 as int,
                v,
                q,
                uv,
            )),
{
    let ghost m0 = *mesh;
    proof {
        crate::mesh::cut::lemma_keeps_refl(m0);
    }
    let path = match face_path(mesh, face, va, vb) {
        Some(p) => p,
        None => {
            return None;
        },
    };
    let placed = place(&*mesh, face, &path, pos);
    proof {
        assert(boundary_path(m0, face.0 as int, va, vb)->0 == path@);
        assert(place.ensures((&m0, face, &path, pos), placed));
    }
    match placed {
        BoundaryPlacement::Corner(v) => {
            if v.0 < mesh.vertices.len() && face_has_corner(mesh, face, v) {
                Some(v)
            } else {
                proof {
                    assert(!usable_placement(m0, face, path@, placed));
                }
                None
            }
        },
        BoundaryPlacement::Split(i, q) => {
            if i < path.len() && mesh.has_room() {
                let v = mesh.split_edge(path[i], q, uv);
                proof {
                    lemma_keeps_split_edge(m0, *mesh, path@[i as int].0 as int, v, q, uv);
                    assert(boundary_path(m0, face.0 as int, va, vb)->0 == path@);
                    assert(crate::mesh::half_edge::split_edge_relation(
                        m0,
                        *mesh,
                        boundary_path(m0, face.0 as int, va, vb)->0[i as int].0 as int,
                        v,
                        q,
                        uv,
                    ));
                }
                Some(v)
            } else {
                None
            }
        },
        BoundaryPlacement::Missing => None,
    }
}

/// The distinct vertices of `pts`, in increasing order of index.
fn sorted_distinct(pts: &Vec<VertexId>) -> (r: Vec<VertexId>)
    ensures
        forall|i: int, j: int| 0 <= i < j < r@.len() ==> (#[trigger] r@[i]).0 < (#[trigger] r@[j]).0,
        forall|v: VertexId| #[trigger] r@.contains(v) <==> pts@.contains(v),
{
    let mut r: Vec<VertexId> = Vec::new();
    let mut k: usize = 0;
    while k < pts.len()
        invariant
            k <= pts@.len(),
            forall|i: int, j: int| 0 <= i < j < r@.len() ==> (#[trigger] r@[i]).0 < (#[trigger] r@[j]).0,
            forall|v: VertexId| #[trigger] r@.contains(v) <==> pts@.take(k as int).contains(v),
        decreases pts@.len() - k,
    {
        let x = pts[k];
        let ghost r0 = r@;
        let mut i: usize = 0;
        while i < r.len() && r[i].0 < x.0
            invariant
                i <= r@.len(),
                r@ == r0,
                forall|j: int| 0 <= j < i ==> (#[trigger] r@[j]).0 < x.0,
            decreases r@.len() - i,
        {
            i = i + 1;
        }
        if !(i < r.len() && r[i].0 == x.0) {
            r.insert(i, x);
        }
        proof {
            let t0 = pts@.take(k as int);
            let t1 = pts@.take(k + 1);
            assert(t1 =~= t0.push(x));
            assert forall|v: VertexId| #[trigger] r@.contains(v) <==> t1.contains(v) by {
                if t1.contains(v) {
                    let q = choose|q: int| 0 <= q < t1.len() && t1[q] == v;
                    if q < k {
                        assert(t0.contains(v));
                        assert(r0.contains(v));
                        let w = choose|w: int| 0 <= w < r0.len() && r0[w] == v;
                        if r@ != r0 {
                            if w < i {
                                assert(r@[w] == v);
                            } else {
                                assert(r@[w + 1] == v);
                            }
                        }
                    } else {
                        assert(v == x);
                        if r@ == r0 {
                            assert(r@[i as int] == x);
                        } else {
                            assert(r@[i as int] == x);
                        }
                    }
                }
                if r@.contains(v) {
                    let w = choose|w: int| 0 <= w < r@.len() && r@[w] == v;
                    if r@ == r0 {
                        assert(r0.contains(v));
                        assert(t0.contains(v));
                        let q = choose|q: int| 0 <= q < t0.len() && t0[q] == v;
                        assert(t1[q] == v);
                    } else if w == i {
                        assert(t1[k as int] == v);
                    } else {
                        let w0 = if w < i { w } else { w - 1 };
                        assert(r0[w0] == v);
                        assert(r0.contains(v));
                        assert(t0.contains(v));
                        let q = choose|q: int| 0 <= q < t0.len() && t0[q] == v;
                        assert(t1[q] == v);
                    }
                }
            }
            if r@ != r0 {
                assert forall|a: int, b: int| 0 <= a < b < r@.len() implies (#[trigger] r@[a]).0 < (#[trigger] r@[b]).0 by {
                    if a < i && b < i {
                        assert(r0[a].0 < r0[b].0);
                    } else if a < i && b == i {
                    } else if a < i {
                        assert(r0[a].0 < r0[b - 1].0);
                    } else if a == i {
                        if b - 1 > i {
                            assert(r0[i as int].0 < r0[b - 1].0);
                        }
                    } else {
                        assert(r0[a - 1].0 < r0[b - 1].0);
                    }
                }
            }
        }
        k = k + 1;
    }
    proof {
        assert(pts@.take(pts@.len() as int) =~= pts@);
    }
    r
}

/// Marking an edge somewhere round a vertex only adds cut marks.
proof fn lemma_marked_anywhere_grows(m0: HalfEdgeMesh, m1: HalfEdgeMesh, a: VertexId, b: VertexId, r: bool)
    requires
        ({
            let fs = faces_around(m0, a);
            &&& !r ==> m1 == m0
            &&& r ==> exists|i: int|
                0 <= i < fs.len() && edge_marked(m0, m1, (#[trigger] fs[i]).0 as int, a, b, true) && forall|j: int|
                    0 <= j < i ==> edge_marked(m0, m0, (#[trigger] fs[j]).0 as int, a, b, false)
        }),
    ensures
        grows(m0, m1),
{
    let fs = faces_around(m0, a);
    if r {
        let i = choose|i: int|
            0 <= i < fs.len() && edge_marked(m0, m1, (#[trigger] fs[i]).0 as int, a, b, true) && forall|j: int|
                0 <= j < i ==> edge_marked(m0, m0, (#[trigger] fs[j]).0 as int, a, b, false);
        lemma_marked_grows(m0, m1, fs[i].0 as int, a, b, true);
    } else {
        lemma_grows_refl(m0);
    }
}

/// The first branch that `meets` reports for `face` of `m` crosses the
/// face's boundary first between two corners joined by a way round the face
/// (see `boundary_path`), `place` always names a half-edge of the way it is
/// given to split, the face has at least three corners and `m` has room.
pub open spec fn first_crossing_splits<
    M: Fn(&Vec<(usize, glam::Vec2, glam::Vec3)>) -> Vec<(usize, TriangleIntersection)>,
    P: Fn(&HalfEdgeMesh, FaceId, &Vec<HalfEdgeId>, glam::Vec3) -> BoundaryPlacement,
>(m: HalfEdgeMesh, face: int, meets: &M, place: &P) -> bool {
    &&& face_corners(m, face).len() >= 3
    &&& m.roomy()
    &&& forall|c: &Vec<(usize, glam::Vec2, glam::Vec3)>, o: Vec<(usize, TriangleIntersection)>|
        c@ == face_corners(m, face) && #[trigger] meets.ensures((c,), o) ==> {
            &&& o@.len() > 0
            &&& o@[0].1.edge_points@.len() > 0
            &&& boundary_path(
                m,
                face,
                VertexId(o@[0].1.edge_points@[0].0),
                VertexId(o@[0].1.edge_points@[0].1),
            ) is Some
        }
    &&& forall|mm: &HalfEdgeMesh, f: FaceId, p: &Vec<HalfEdgeId>, x: glam::Vec3, o: BoundaryPlacement|
        #[trigger] place.ensures((mm, f, p, x), o) && p@.len() > 0 ==> (o matches BoundaryPlacement::Split(i, _) && i < p@.len())
}

/// Face `f` of `m0` has been cut in `m1`: its first half-edge changed, or
/// some half-edge of its walk in `m0` has another next half-edge or face.
pub open spec fn face_touched(m0: HalfEdgeMesh, m1: HalfEdgeMesh, f: int) -> bool {
    let w = m0.face_walk(f);
    ||| m1.faces@[f].half_edge != m0.faces@[f].half_edge
    ||| exists|j: int|
        0 <= j < w.len() && (m1.next_of(#[trigger] w[j]) != m0.next_of(w[j]) || m1.half_edges@[w[j].0 as int].face
            != m0.half_edges@[w[j].0 as int].face)
}

/// Once cut, a face stays cut: later steps only link to newer elements.
proof fn lemma_touched_persists(m0: HalfEdgeMesh, m1: HalfEdgeMesh, m2: HalfEdgeMesh, f: int)
    requires
        m0.wf(),
        0 <= f < m0.nf(),
        m0.faces@[f].valid,
        grows(m0, m1),
        grows(m1, m2),
        face_touched(m0, m1, f),
    ensures
        face_touched(m0, m2, f),
{
    let w = m0.face_walk(f);
    m0.lemma_face_walk_ok(f);
    m0.lemma_walk_same_face(w, m0.faces@[f].half_edge, m0.nh() + 1);
    assert(m0.face_ok(f));
    if m1.faces@[f].half_edge != m0.faces@[f].half_edge {
        let _ = m2.faces@[f];
        assert(m0.faces@[f].half_edge.0 < m0.nh());
    } else {
        let j = choose|j: int|
            0 <= j < w.len() && (m1.next_of(#[trigger] w[j]) != m0.next_of(w[j]) || m1.half_edges@[w[j].0 as int].face
                != m0.half_edges@[w[j].0 as int].face);
        let x = w[j].0 as int;
        let _ = m1.half_edges@[x];
        let _ = m2.half_edges@[x];
        assert(m0.link_ok(x));
        assert(m0.half_edges@[x].next.0 < m0.nh());
        assert(m0.half_edges@[x].face.0 < m0.nf());
        assert(m2.next_of(w[j]) != m0.next_of(w[j]) || m2.half_edges@[w[j].0 as int].face != m0.half_edges@[w[j].0
            as int].face);
    }
}

/// A face whose walk is still as it was, with its first half-edge, has the
/// same walk.
proof fn lemma_untouched_walk(m0: HalfEdgeMesh, m1: HalfEdgeMesh, f: int)
    requires
        m0.wf(),
        m1.wf(),
        0 <= f < m0.nf(),
        m0.faces@[f].valid,
        grows(m0, m1),
        !face_touched(m0, m1, f),
    ensures
        m1.face_walk(f) == m0.face_walk(f),
{
    let w = m0.face_walk(f);
    let start = m0.faces@[f].half_edge;
    m0.lemma_face_walk_ok(f);
    assert(m1.faces@[f].half_edge == start);
    assert forall|i: int| 0 <= i < w.len() - 1 implies #[trigger] m1.next_of(w[i]) == w[i + 1] by {
        assert(m1.next_of(w[i]) == m0.next_of(w[i]));
    }
    assert(m1.next_of(w[w.len() - 1]) == m0.next_of(w[w.len() - 1]));
    assert(m1.is_walk_from(w, start, m1.nh() + 1));
    m1.lemma_walk_unique(m1.face_walk(f), w, start, m1.nh() + 1);
}

/// A cut face's walk is not what it was.
proof fn lemma_touched_walk(m0: HalfEdgeMesh, m1: HalfEdgeMesh, f: int)
    requires
        m0.wf(),
        m1.wf(),
        0 <= f < m0.nf(),
        m0.faces@[f].valid,
        m1.faces@[f].valid,
        grows(m0, m1),
        face_touched(m0, m1, f),
    ensures
        m1.face_walk(f) != m0.face_walk(f),
{
    let w = m0.face_walk(f);
    m0.lemma_face_walk_ok(f);
    m1.lemma_face_walk_ok(f);
    m0.lemma_walk_same_face(w, m0.faces@[f].half_edge, m0.nh() + 1);
    m1.lemma_walk_same_face(m1.face_walk(f), m1.faces@[f].half_edge, m1.nh() + 1);
    assert(m0.face_ok(f));
    assert(m1.face_ok(f));
    if m1.face_walk(f) == w {
        assert(m1.faces@[f].half_edge == w[0]);
        assert(m0.faces@[f].half_edge == w[0]);
        let j = choose|j: int|
            0 <= j < w.len() && (m1.next_of(#[trigger] w[j]) != m0.next_of(w[j]) || m1.half_edges@[w[j].0 as int].face
                != m0.half_edges@[w[j].0 as int].face);
        if j < w.len() - 1 {
            assert(m1.next_of(w[j]) == w[j + 1]);
            assert(m0.next_of(w[j]) == w[j + 1]);
        } else {
            assert(m1.next_of(w[j]) == w[0]);
            assert(m0.next_of(w[j]) == w[0]);
        }
        assert(m1.half_edges@[w[j].0 as int].face == m1.half_edges@[w[0].0 as int].face);
        assert(m0.half_edges@[w[j].0 as int].face == m0.half_edges@[w[0].0 as int].face);
    }
}

/// The way round a face depends only on its walk and the corners along it.
proof fn lemma_boundary_path_same(m0: HalfEdgeMesh, m1: HalfEdgeMesh, f: int, va: VertexId, vb: VertexId)
    requires
        m1.face_walk(f) == m0.face_walk(f),
        forall|j: int|
            0 <= j < m0.face_walk(f).len() ==> m1.half_edges@[(#[trigger] m0.face_walk(f)[j]).0 as int].origin
                == m0.half_edges@[m0.face_walk(f)[j].0 as int].origin,
    ensures
        (boundary_path(m1, f, va, vb) is Some) == (boundary_path(m0, f, va, vb) is Some),
{
    let c = m0.face_walk(f);
    assert forall|i: int| is_first_origin(m1, c, va, i) == is_first_origin(m0, c, va, i) by {
        if 0 <= i < c.len() {
            assert(m1.half_edges@[c[i].0 as int].origin == m0.half_edges@[c[i].0 as int].origin);
            assert forall|j: int| 0 <= j < i implies m1.half_edges@[(#[trigger] c[j]).0 as int].origin
                == m0.half_edges@[c[j].0 as int].origin by {}
        }
    }
    if c.len() >= 2 && exists|i: int| is_first_origin(m0, c, va, i) {
        let i0 = choose|i: int| is_first_origin(m0, c, va, i);
        let i1 = choose|i: int| is_first_origin(m1, c, va, i);
        assert(is_first_origin(m1, c, va, i0));
        lemma_first_origin_unique(m1, c, va, i1, i0);
        assert forall|k: int| steps_to(m1, c, i0, vb, k) == steps_to(m0, c, i0, vb, k) by {
            assert forall|j: int| origin_after(m1, c, i0, j) == origin_after(m0, c, i0, j) by {
                let n = c.len() as int;
                let q = (i0 + j) % n;
                assert(0 <= q < n);
                assert(m1.half_edges@[c[q].0 as int].origin == m0.half_edges@[c[q].0 as int].origin);
            }
        }
    }
}

/// A face not yet cut, of a mesh that still has room, still has its first
/// crossing split.
proof fn lemma_untouched_splits<
    M: Fn(&Vec<(usize, glam::Vec2, glam::Vec3)>) -> Vec<(usize, TriangleIntersection)>,
    P: Fn(&HalfEdgeMesh, FaceId, &Vec<HalfEdgeId>, glam::Vec3) -> BoundaryPlacement,
>(m0: HalfEdgeMesh, m1: HalfEdgeMesh, f: int, meets: &M, place: &P)
    requires
        m0.wf(),
        m1.wf(),
        0 <= f < m0.nf(),
        m0.faces@[f].valid,
        grows(m0, m1),
        !face_touched(m0, m1, f),
        m1.roomy(),
        first_crossing_splits(m0, f, meets, place),
    ensures
        first_crossing_splits(m1, f, meets, place),
{
    lemma_untouched_walk(m0, m1, f);
    let w = m0.face_walk(f);
    m0.lemma_face_walk_ok(f);
    assert forall|j: int| 0 <= j < w.len() implies m1.half_edges@[(#[trigger] w[j]).0 as int].origin
        == m0.half_edges@[w[j].0 as int].origin by {
        let _ = m1.half_edges@[w[j].0 as int];
    }
    assert(face_corners(m1, f) =~= face_corners(m0, f)) by {
        assert forall|j: int| 0 <= j < w.len() implies face_corners(m1, f)[j] == face_corners(m0, f)[j] by {
            let x = w[j].0 as int;
            let o = m0.half_edges@[x].origin.0 as int;
            assert(m0.link_ok(x));
            assert(m1.half_edges@[x].origin == m0.half_edges@[x].origin);
            assert(0 <= o < m0.nv());
            let _ = m1.vertices@[o];
        }
    }
    assert forall|c: &Vec<(usize, glam::Vec2, glam::Vec3)>, o: Vec<(usize, TriangleIntersection)>|
        c@ == face_corners(m1, f) && #[trigger] meets.ensures((c,), o) implies {
            &&& o@.len() > 0
            &&& o@[0].1.edge_points@.len() > 0
            &&& boundary_path(
                m1,
                f,
                VertexId(o@[0].1.edge_points@[0].0),
                VertexId(o@[0].1.edge_points@[0].1),
            ) is Some
        } by {
        lemma_boundary_path_same(m0, m1, f, VertexId(o@[0].1.edge_points@[0].0), VertexId(o@[0].1.edge_points@[0].1));
    }
}

/// A face not cut from `m0` to `m1` but cut from `m1` to `m2` is cut from
/// `m0` to `m2`.
proof fn lemma_touched_compose(m0: HalfEdgeMesh, m1: HalfEdgeMesh, m2: HalfEdgeMesh, f: int)
    requires
        m0.wf(),
        m1.wf(),
        0 <= f < m0.nf(),
        m0.faces@[f].valid,
        grows(m0, m1),
        !face_touched(m0, m1, f),
        face_touched(m1, m2, f),
    ensures
        face_touched(m0, m2, f),
{
    lemma_untouched_walk(m0, m1, f);
    let w = m0.face_walk(f);
    if m2.faces@[f].half_edge == m1.faces@[f].half_edge {
        let j = choose|j: int|
            0 <= j < w.len() && (m2.next_of(#[trigger] w[j]) != m1.next_of(w[j]) || m2.half_edges@[w[j].0 as int].face
                != m1.half_edges@[w[j].0 as int].face);
        assert(m1.next_of(w[j]) == m0.next_of(w[j]));
        assert(m1.half_edges@[w[j].0 as int].face == m0.half_edges@[w[j].0 as int].face);
    }
}

/// Cuts `face` along every curve branch that meets it. `meets` gives, from
/// the face's corners (see `get_face_uvs`), each branch that meets the
/// face, as the curve it belongs to with where it meets the face. For each
/// branch, the points where it crosses the boundary are inserted (see
/// `insert_boundary_point`) and taken with the face's corners that lie on
/// it; these vertices, each once, are put in order along the branch by
/// `order` and joined in turn. A pair already joined by an edge of the face,
/// or of a face round the first of the pair, gets that edge marked as cut;
/// any other pair becomes a chord, and the chords are added at the end (see
/// `add_chord`). Returns whether a pair was joined; a face with fewer than
/// three corners is left as it is, so is a face for which `meets` reports
/// no branch, and no face changes when no pair was joined. Where the first
/// crossing of the first branch is a split (see `first_crossing_splits`), a
/// vertex is added there and the face is cut (see `face_touched`).
pub fn cut_face_knots<
    M: Fn(&Vec<(usize, glam::Vec2, glam::Vec3)>) -> Vec<(usize, TriangleIntersection)>,
    P: Fn(&HalfEdgeMesh, FaceId, &Vec<HalfEdgeId>, glam::Vec3) -> BoundaryPlacement,
    O: Fn(&HalfEdgeMesh, FaceId, &Vec<VertexId>, usize) -> Vec<VertexId>,
    C: Fn(&HalfEdgeMesh, VertexId, VertexId) -> Option<ChordCrossing>,
>(mesh: &mut HalfEdgeMesh, face: FaceId, meets: &M, place: &P, order: &O, crossing: &C) -> (r: bool)
    requires
        old(mesh).wf(),
        face.0 < old(mesh).nf(),
        old(mesh).faces@[face.0 as int].valid,
        forall|c: &Vec<(usize, glam::Vec2, glam::Vec3)>| #[trigger] meets.requires((c,)),
        forall|m: &HalfEdgeMesh, f: FaceId, p: &Vec<HalfEdgeId>, x: glam::Vec3| #[trigger] place.requires((m, f, p, x)),
        forall|m: &HalfEdgeMesh, f: FaceId, p: &Vec<VertexId>, k: usize| #[trigger] order.requires((m, f, p, k)),
        forall|m: &HalfEdgeMesh, x: VertexId, y: VertexId| #[trigger] crossing.requires((m, x, y)),
    ensures
        final(mesh).wf(),
        grows(*old(mesh), *final(mesh)),
        face_corners(*old(mesh), face.0 as int).len() < 3 ==> !r && *final(mesh) == *old(mesh),
        !r ==> final(mesh).faces@ == old(mesh).faces@,
        first_crossing_splits(*old(mesh), face.0 as int, meets, place) ==> final(mesh).nv() > old(mesh).nv(),
        (forall|c: &Vec<(usize, glam::Vec2, glam::Vec3)>, o: Vec<(usize, TriangleIntersection)>|
            c@ == face_corners(*old(mesh), face.0 as int) && #[trigger] meets.ensures((c,), o) ==> o@.len() == 0) ==> !r
            && *final(mesh) == *old(mesh),
        first_crossing_splits(*old(mesh), face.0 as int, meets, place) ==> face_touched(
            *old(mesh),
            *final(mesh),
            face.0 as int,
        ),
{
    let ghost m0 = *mesh;
    let ghost hyp = first_crossing_splits(m0, face.0 as int, meets, place);
    proof {
        lemma_grows_refl(m0);
    }
    let fv = get_face_uvs(mesh, face);
    if fv.len() < 3 {
        return false;
    }
    let branches = meets(&fv);
    proof {
        assert(meets.ensures((&fv,), branches));
        if hyp {
            assert(meets.ensures((&fv,), branches));
        }
    }
    let mut chords: Vec<(VertexId, VertexId)> = Vec::new();
    let mut any = false;
    let mut bi: usize = 0;
    while bi < branches.len()
        invariant
            mesh.wf(),
            grows(m0, *mesh),
            face.0 < m0.nf(),
            m0.faces@[face.0 as int].valid,
            bi <= branches@.len(),
            forall|j: int| 0 <= j < chords@.len() ==> (#[trigger] chords@[j]).0.0 < mesh.nv(),
            m0 == *old(mesh),
            mesh.faces@ == m0.faces@,
            hyp == first_crossing_splits(m0, face.0 as int, meets, place),
            hyp ==> branches@.len() > 0 && branches@[0].1.edge_points@.len() > 0 && boundary_path(
                m0,
                face.0 as int,
                VertexId(branches@[0].1.edge_points@[0].0),
                VertexId(branches@[0].1.edge_points@[0].1),
            ) is Some,
            bi == 0 ==> *mesh == m0,
            branches@.len() == 0 ==> *mesh == m0 && !any,
            hyp && bi > 0 ==> mesh.nv() > m0.nv(),
            hyp && bi > 0 ==> face_touched(m0, *mesh, face.0 as int),
            m0.wf(),
            forall|m: &HalfEdgeMesh, f: FaceId, p: &Vec<HalfEdgeId>, x: glam::Vec3| #[trigger] place.requires((m, f, p, x)),
            forall|m: &HalfEdgeMesh, f: FaceId, p: &Vec<VertexId>, k: usize| #[trigger] order.requires((m, f, p, k)),
        decreases branches@.len() - bi,
    {
        let curve = branches[bi].0;
        let isect = &branches[bi].1;
        let mut pts: Vec<VertexId> = Vec::new();
        let mut e: usize = 0;
        while e < isect.edge_points.len()
            invariant
                mesh.wf(),
                grows(m0, *mesh),
                face.0 < m0.nf(),
                m0.faces@[face.0 as int].valid,
                e <= isect.edge_points@.len(),
                forall|j: int| 0 <= j < chords@.len() ==> (#[trigger] chords@[j]).0.0 < mesh.nv(),
                forall|m: &HalfEdgeMesh, f: FaceId, p: &Vec<HalfEdgeId>, x: glam::Vec3| #[trigger] place.requires((m, f, p, x)),
                m0 == *old(mesh),
                mesh.faces@ == m0.faces@,
                hyp == first_crossing_splits(m0, face.0 as int, meets, place),
                bi < branches@.len(),
                *isect == branches@[bi as int].1,
                hyp ==> branches@.len() > 0 && branches@[0].1.edge_points@.len() > 0 && boundary_path(
                    m0,
                    face.0 as int,
                    VertexId(branches@[0].1.edge_points@[0].0),
                    VertexId(branches@[0].1.edge_points@[0].1),
                ) is Some,
                bi == 0 && e == 0 ==> *mesh == m0,
                hyp && (bi > 0 || e > 0) ==> mesh.nv() > m0.nv(),
                hyp && (bi > 0 || e > 0) ==> face_touched(m0, *mesh, face.0 as int),
                m0.wf(),
            decreases isect.edge_points@.len() - e,
        {
            let (va, vb, pos, uv) = isect.edge_points[e];
            let ghost before = *mesh;
            proof {
                if hyp && bi == 0 && e == 0 {
                    let path = boundary_path(m0, face.0 as int, VertexId(va), VertexId(vb))->0;
                    assert(path.len() > 0);
                    assert forall|m: &HalfEdgeMesh, p: &Vec<HalfEdgeId>, o: BoundaryPlacement|
                        *m == m0 && p@ == path && #[trigger] place.ensures((m, face, p, pos), o) implies usable_placement(
                        m0,
                        face,
                        path,
                        o,
                    ) by {}
                }
            }
            let res = insert_boundary_point(mesh, face, VertexId(va), VertexId(vb), pos, uv, place);
            match res {
                Some(v) => {
                    pts.push(v);
                },
                None => {},
            }
            proof {
                let w = res->0;
                if res is Some && w.0 >= before.nv() {
                    let v = w;
                    let path = boundary_path(before, face.0 as int, VertexId(va), VertexId(vb))->0;
                    let (i, q) = choose|i: int, q: glam::Vec3|
                        0 <= i < path.len() && #[trigger] crate::mesh::half_edge::split_edge_relation(
                            before,
                            *mesh,
                            path[i].0 as int,
                            v,
                            q,
                            uv,
                        );
                    lemma_split_edge_links(before, *mesh, path[i].0 as int, v, q, uv);
                    if hyp && bi == 0 && e == 0 {
                        let c = m0.face_walk(face.0 as int);
                        m0.lemma_face_walk_ok(face.0 as int);
                        let ia = choose|i: int| is_first_origin(m0, c, VertexId(va), i);
                        let k = choose|k: int| steps_to(m0, c, ia, VertexId(vb), k);
                        let j = (ia + i) % (c.len() as int);
                        assert(path[i] == c[j]);
                        assert(m0.link_ok(c[j].0 as int));
                        assert(mesh.next_of(c[j]).0 == m0.nh());
                        assert(face_touched(m0, *mesh, face.0 as int));
                    }
                }
                lemma_keeps_grows(before, *mesh);
                if hyp && (bi > 0 || e > 0) {
                    lemma_touched_persists(m0, before, *mesh, face.0 as int);
                }
                lemma_grows_trans(m0, before, *mesh);
            }
            e = e + 1;
        }
        let mut o: usize = 0;
        while o < isect.on_line_vertices.len()
            invariant
                o <= isect.on_line_vertices@.len(),
            decreases isect.on_line_vertices@.len() - o,
        {
            pts.push(VertexId(isect.on_line_vertices[o]));
            o = o + 1;
        }
        let pts = sorted_distinct(&pts);
        if pts.len() >= 2 {
            let ordered = order(&*mesh, face, &pts, curve);
            let mut w: usize = 0;
            while w < ordered.len()
                invariant
                    mesh.wf(),
                    grows(m0, *mesh),
                    face.0 < m0.nf(),
                    m0.faces@[face.0 as int].valid,
                    w <= ordered@.len(),
                    forall|j: int| 0 <= j < chords@.len() ==> (#[trigger] chords@[j]).0.0 < mesh.nv(),
                    mesh.faces@ == m0.faces@,
                    hyp ==> mesh.nv() > m0.nv(),
                    hyp ==> face_touched(m0, *mesh, face.0 as int),
                    m0.wf(),
                decreases ordered@.len() - w,
            {
                if w + 1 < ordered.len() && ordered[w] != ordered[w + 1] && ordered[w].0 < mesh.vertices.len() {
                    let a = ordered[w];
                    let b = ordered[w + 1];
                    let ghost before = *mesh;
                    let marked = mark_edge_cut_between(mesh, face, a, b);
                    proof {
                        assert(edge_marked(before, *mesh, face.0 as int, a, b, marked));
                        lemma_marked_grows(before, *mesh, face.0 as int, a, b, marked);
                        if hyp {
                            lemma_touched_persists(m0, before, *mesh, face.0 as int);
                        }
                        lemma_grows_trans(m0, before, *mesh);
                    }
                    if !marked {
                        let ghost before2 = *mesh;
                        let found = mark_edge_cut_anywhere(mesh, a, b);
                        proof {
                            lemma_marked_anywhere_grows(before2, *mesh, a, b, found);
                            if hyp {
                                lemma_touched_persists(m0, before2, *mesh, face.0 as int);
                            }
                            lemma_grows_trans(m0, before2, *mesh);
                        }
                        if !found {
                            chords.push((a, b));
                        }
                    }
                    any = true;
                }
                w = w + 1;
            }
        }
        bi = bi + 1;
    }
    if !any {
        return false;
    }
    let mut ci: usize = 0;
    while ci < chords.len()
        invariant
            mesh.wf(),
            grows(m0, *mesh),
            ci <= chords@.len(),
            hyp ==> mesh.nv() > m0.nv(),
            hyp ==> face_touched(m0, *mesh, face.0 as int),
            m0.wf(),
            face.0 < m0.nf(),
            m0.faces@[face.0 as int].valid,
            forall|j: int| 0 <= j < chords@.len() ==> (#[trigger] chords@[j]).0.0 < mesh.nv(),
            forall|m: &HalfEdgeMesh, x: VertexId, y: VertexId| #[trigger] crossing.requires((m, x, y)),
        decreases chords@.len() - ci,
    {
        let (a, b) = chords[ci];
        let ghost before = *mesh;
        add_chord(mesh, a, b, crossing);
        proof {
            if hyp {
                lemma_touched_persists(m0, before, *mesh, face.0 as int);
            }
            lemma_grows_trans(m0, before, *mesh);
        }
        ci = ci + 1;
    }
    true
}

/// `f` is the first valid face of `m`, in index order, that the curves
/// meet: `meets` reports no branch for any valid face before it, and the
/// first crossing of its first branch is a split (see
/// `first_crossing_splits`).
pub open spec fn first_knot_face<
    M: Fn(&Vec<(usize, glam::Vec2, glam::Vec3)>) -> Vec<(usize, TriangleIntersection)>,
    P: Fn(&HalfEdgeMesh, FaceId, &Vec<HalfEdgeId>, glam::Vec3) -> BoundaryPlacement,
>(m: HalfEdgeMesh, meets: &M, place: &P, f: int) -> bool {
    &&& 0 <= f < m.nf()
    &&& m.faces@[f].valid
    &&& forall|g: int, c: &Vec<(usize, glam::Vec2, glam::Vec3)>, o: Vec<(usize, TriangleIntersection)>|
        #![trigger m.faces@[g], meets.ensures((c,), o)]
        0 <= g < f && m.faces@[g].valid && c@ == face_corners(m, g) && meets.ensures((c,), o) ==> o@.len() == 0
    &&& first_crossing_splits(m, f, meets, place)
}

/// What the knot cut promises of `m1`, the mesh it leaves, given `m0` and
/// the same closures (see `cut_mesh_by_knots`).
pub open spec fn knot_cut_result<
    M: Fn(&Vec<(usize, glam::Vec2, glam::Vec3)>) -> Vec<(usize, TriangleIntersection)>,
    P: Fn(&HalfEdgeMesh, FaceId, &Vec<HalfEdgeId>, glam::Vec3) -> BoundaryPlacement,
>(m0: HalfEdgeMesh, m1: HalfEdgeMesh, meets: &M, place: &P) -> bool {
    &&& m1.wf()
    &&& grows(m0, m1)
    &&& (exists|f: int| 0 <= f < m0.nf() && #[trigger] m0.faces@[f].valid) && (forall|f: int|
        0 <= f < m0.nf() && #[trigger] m0.faces@[f].valid ==> first_crossing_splits(m0, f, meets, place)) ==> m1.nv()
        > m0.nv()
    &&& (forall|c: &Vec<(usize, glam::Vec2, glam::Vec3)>, o: Vec<(usize, TriangleIntersection)>|
        #[trigger] meets.ensures((c,), o) ==> o@.len() == 0) ==> m1 == m0
    &&& (exists|f: int| #[trigger] first_knot_face(m0, meets, place, f)) ==> m1.nv() > m0.nv()
    &&& m1.roomy() ==> forall|f: int|
        0 <= f < m0.nf() && #[trigger] m0.faces@[f].valid && first_crossing_splits(m0, f, meets, place) ==> m1.face_walk(f)
            != m0.face_walk(f)
}

/// Cuts every face of the mesh that existed when the call began, and is
/// still valid when its turn comes, along the knot curves (see
/// `cut_face_knots`, which the four closures are handed to). A face for
/// which `meets` reports no branch is left as it is when its turn comes.
/// When the first valid face that the curves meet has a split for its first
/// crossing (see `first_knot_face`), vertices are added; so they are when
/// that holds of every valid face (see `first_crossing_splits`); when
/// `meets` reports no branch anywhere, the mesh is left as it is. Every
/// valid face whose first crossing is a split is cut: its walk changes,
/// provided the mesh never runs out of room (see `roomy`).
pub fn cut_mesh_by_knots<
    M: Fn(&Vec<(usize, glam::Vec2, glam::Vec3)>) -> Vec<(usize, TriangleIntersection)>,
    P: Fn(&HalfEdgeMesh, FaceId, &Vec<HalfEdgeId>, glam::Vec3) -> BoundaryPlacement,
    O: Fn(&HalfEdgeMesh, FaceId, &Vec<VertexId>, usize) -> Vec<VertexId>,
    C: Fn(&HalfEdgeMesh, VertexId, VertexId) -> Option<ChordCrossing>,
>(mesh: &mut HalfEdgeMesh, meets: &M, place: &P, order: &O, crossing: &C)
    requires
        old(mesh).wf(),
        forall|c: &Vec<(usize, glam::Vec2, glam::Vec3)>| #[trigger] meets.requires((c,)),
        forall|m: &HalfEdgeMesh, f: FaceId, p: &Vec<HalfEdgeId>, x: glam::Vec3| #[trigger] place.requires((m, f, p, x)),
        forall|m: &HalfEdgeMesh, f: FaceId, p: &Vec<VertexId>, k: usize| #[trigger] order.requires((m, f, p, k)),
        forall|m: &HalfEdgeMesh, x: VertexId, y: VertexId| #[trigger] crossing.requires((m, x, y)),
    ensures
        final(mesh).wf(),
        grows(*old(mesh), *final(mesh)),
        (exists|f: int| 0 <= f < old(mesh).nf() && #[trigger] old(mesh).faces@[f].valid) && (forall|f: int|
            0 <= f < old(mesh).nf() && #[trigger] old(mesh).faces@[f].valid ==> first_crossing_splits(
                *old(mesh),
                f,
                meets,
                place,
            )) ==> final(mesh).nv() > old(mesh).nv(),
        (forall|c: &Vec<(usize, glam::Vec2, glam::Vec3)>, o: Vec<(usize, TriangleIntersection)>|
            #[trigger] meets.ensures((c,), o) ==> o@.len() == 0) ==> *final(mesh) == *old(mesh),
        (exists|f: int| #[trigger] first_knot_face(*old(mesh), meets, place, f)) ==> final(mesh).nv() > old(mesh).nv(),
        final(mesh).roomy() ==> forall|f: int|
            0 <= f < old(mesh).nf() && #[trigger] old(mesh).faces@[f].valid && first_crossing_splits(
                *old(mesh),
                f,
                meets,
                place,
            ) ==> final(mesh).face_walk(f) != old(mesh).face_walk(f),
{
    let ghost m0 = *mesh;
    let ghost first = exists|f: int| #[trigger] first_knot_face(m0, meets, place, f);
    let ghost fstar = choose|f: int| #[trigger] first_knot_face(m0, meets, place, f);
    let ghost hyp = forall|f: int|
        0 <= f < m0.nf() && #[trigger] m0.faces@[f].valid ==> first_crossing_splits(m0, f, meets, place);
    proof {
        lemma_grows_refl(m0);
    }
    let n = mesh.faces.len();
    let mut fi: usize = 0;
    while fi < n
        invariant
            mesh.wf(),
            grows(m0, *mesh),
            n == m0.nf(),
            fi <= n,
            (forall|c: &Vec<(usize, glam::Vec2, glam::Vec3)>, o: Vec<(usize, TriangleIntersection)>|
                #[trigger] meets.ensures((c,), o) ==> o@.len() == 0) ==> *mesh == m0,
            m0 == *old(mesh),
            hyp == (forall|f: int|
                0 <= f < m0.nf() && #[trigger] m0.faces@[f].valid ==> first_crossing_splits(m0, f, meets, place)),
            hyp ==> mesh.nv() > m0.nv() || (*mesh == m0 && forall|g: int| 0 <= g < fi ==> !(#[trigger] m0.faces@[g]).valid),
            first ==> first_knot_face(m0, meets, place, fstar),
            first ==> mesh.nv() > m0.nv() || (*mesh == m0 && fi <= fstar),
            m0.wf(),
            forall|g: int|
                0 <= g < fi && #[trigger] m0.faces@[g].valid && first_crossing_splits(m0, g, meets, place) ==> face_touched(
                    m0,
                    *mesh,
                    g,
                ) || !mesh.roomy(),
            forall|c: &Vec<(usize, glam::Vec2, glam::Vec3)>| #[trigger] meets.requires((c,)),
            forall|m: &HalfEdgeMesh, f: FaceId, p: &Vec<HalfEdgeId>, x: glam::Vec3| #[trigger] place.requires((m, f, p, x)),
            forall|m: &HalfEdgeMesh, f: FaceId, p: &Vec<VertexId>, k: usize| #[trigger] order.requires((m, f, p, k)),
            forall|m: &HalfEdgeMesh, x: VertexId, y: VertexId| #[trigger] crossing.requires((m, x, y)),
        decreases n - fi,
    {
        proof {
            assert(mesh.faces@[fi as int].valid == m0.faces@[fi as int].valid);
        }
        if mesh.faces[fi].valid {
            let ghost before = *mesh;
            proof {
                if hyp && *mesh == m0 {
                    assert(m0.faces@[fi as int].valid);
                }
                if first && *mesh == m0 && fi < fstar {
                    assert(m0.faces@[fi as int].valid);
                    assert forall|c: &Vec<(usize, glam::Vec2, glam::Vec3)>, o: Vec<(usize, TriangleIntersection)>|
                        c@ == face_corners(*mesh, fi as int) && #[trigger] meets.ensures((c,), o) implies o@.len() == 0 by {
                        assert(m0.faces@[fi as int].valid);
                    }
                }
            }
            proof {
                if first_crossing_splits(m0, fi as int, meets, place) && !face_touched(m0, *mesh, fi as int) && mesh.roomy() {
                    lemma_untouched_splits(m0, *mesh, fi as int, meets, place);
                }
            }
            cut_face_knots(mesh, FaceId(fi), meets, place, order, crossing);
            proof {
                lemma_grows_trans(m0, before, *mesh);
                assert forall|g: int|
                    0 <= g < fi + 1 && #[trigger] m0.faces@[g].valid && first_crossing_splits(m0, g, meets, place) implies face_touched(
                        m0,
                        *mesh,
                        g,
                    ) || !mesh.roomy() by {
                    if face_touched(m0, before, g) {
                        lemma_touched_persists(m0, before, *mesh, g);
                    } else if g == fi && before.roomy() {
                        lemma_touched_compose(m0, before, *mesh, g);
                    }
                }
            }
        } else {
            proof {
                assert forall|g: int|
                    0 <= g < fi + 1 && #[trigger] m0.faces@[g].valid && first_crossing_splits(m0, g, meets, place) implies face_touched(
                        m0,
                        *mesh,
                        g,
                    ) || !mesh.roomy() by {
                    if g == fi {
                        assert(mesh.faces@[g].valid == m0.faces@[g].valid);
                    }
                }
            }
        }
        fi = fi + 1;
    }
    proof {
        if hyp && exists|f: int| 0 <= f < m0.nf() && #[trigger] m0.faces@[f].valid {
            let g = choose|g: int| 0 <= g < m0.nf() && #[trigger] m0.faces@[g].valid;
            assert(m0.faces@[g].valid);
        }
        if mesh.roomy() {
            assert forall|f: int|
                0 <= f < m0.nf() && #[trigger] m0.faces@[f].valid && first_crossing_splits(m0, f, meets, place) implies mesh.face_walk(
                f,
            ) != m0.face_walk(f) by {
                assert(mesh.faces@[f].valid);
                lemma_touched_walk(m0, *mesh, f);
            }
        }
    }
}

} // verus!
