//! The topological side of cutting a mesh along curves: finding and marking
//! edges, splitting the faces that a curve crosses, triangulating what is
//! left over and driving the grid cut over the whole mesh.
//!
//! Where a curve meets a face (its intersection with the face's boundary) is
//! computed by the caller and handed in; everything done with it here is
//! topology. Each editing step first checks that the mesh is far from the
//! limits of `usize` (`has_room`) and stops otherwise.
use vstd::prelude::*;
use crate::mesh::euler::{euler_characteristic, lemma_split_edge_keeps_euler, lemma_split_face_keeps_euler};
use crate::mesh::face_split::{lemma_last_origin_same, lemma_split_face_keeps_other_walk, lemma_walk_kept_trans, walk_kept, walk_ok};
use crate::mesh::half_edge::{none_id, FaceId, HEFace, HEVertex, HalfEdge, HalfEdgeId, HalfEdgeMesh, VertexId};

verus! {

/// Side of a cut line a vertex lies on.
#[derive(Debug, Clone, Copy, PartialEq, Eq, Structural)]
pub enum Side {
    Less,
    Greater,
    OnLine,
}

/// How a cut line meets a face, from the sides its corners lie on.
#[derive(Debug, Clone, Copy, PartialEq, Eq, Structural)]
pub enum LineContact {
    /// The line misses the face.
    Miss,
    /// Every corner lies on the line.
    AllOnLine,
    /// The line crosses the face or touches a corner.
    Meets,
}

/// How a line meets a face whose corners lie on `sides`: no corner off the
/// line means all on it; corners on both sides, or one on it, mean it
/// meets the face; otherwise it misses.
pub open spec fn line_contact_spec(sides: Seq<Side>) -> LineContact {
    let less = sides.contains(Side::Less);
    let greater = sides.contains(Side::Greater);
    let on = sides.contains(Side::OnLine);
    if !less && !greater {
        LineContact::AllOnLine
    } else if (less && greater) || on {
        LineContact::Meets
    } else {
        LineContact::Miss
    }
}

proof fn lemma_push_contains(s: Seq<Side>, x: Side, y: Side)
    ensures
        s.push(x).contains(y) == (s.contains(y) || x == y),
{
    if s.contains(y) {
        let k = choose|k: int| 0 <= k < s.len() && s[k] == y;
        assert(s.push(x)[k] == y);
    }
    if x == y {
        assert(s.push(x)[s.len() as int] == y);
    }
    if s.push(x).contains(y) {
        let k = choose|k: int| 0 <= k < s.push(x).len() && s.push(x)[k] == y;
        if k < s.len() {
            assert(s[k] == y);
        }
    }
}

/// How a line meets a face (see `line_contact_spec`).
pub fn line_contact(sides: &[Side]) -> (r: LineContact)
    ensures
        r == line_contact_spec(sides@),
{
    let mut less = false;
    let mut greater = false;
    let mut on = false;
    let mut i: usize = 0;
    while i < sides.len()
        invariant
            i <= sides@.len(),
            less == sides@.take(i as int).contains(Side::Less),
            greater == sides@.take(i as int).contains(Side::Greater),
            on == sides@.take(i as int).contains(Side::OnLine),
        decreases sides@.len() - i,
    {
        proof {
            let t = sides@.take(i as int);
            assert(sides@.take(i + 1) =~= t.push(sides@[i as int]));
            lemma_push_contains(t, sides@[i as int], Side::Less);
            lemma_push_contains(t, sides@[i as int], Side::Greater);
            lemma_push_contains(t, sides@[i as int], Side::OnLine);
        }
        match sides[i] {
            Side::Less => {
                less = true;
            },
            Side::Greater => {
                greater = true;
            },
            Side::OnLine => {
                on = true;
            },
        }
        i = i + 1;
    }
    proof {
        assert(sides@.take(sides@.len() as int) =~= sides@);
    }
    if !less && !greater {
        LineContact::AllOnLine
    } else if (less && greater) || on {
        LineContact::Meets
    } else {
        LineContact::Miss
    }
}

/// Whether a grid line can cross the edge between corners on sides `a` and
/// `b`: not when both lie on the line, nor when both lie on the same side.
pub fn grid_edge_may_cross(a: Side, b: Side) -> (r: bool)
    ensures
        r == (!(a == Side::OnLine && b == Side::OnLine) && !(a != Side::OnLine && b != Side::OnLine && a == b)),
{
    !(a == Side::OnLine && b == Side::OnLine) && !(a != Side::OnLine && b != Side::OnLine && a == b)
}

/// Whether a knot branch crosses the edge between corners on sides `a` and
/// `b`: only when both lie off the branch, on different sides (a corner on
/// the branch stands for the crossing itself).
pub fn knot_edge_crosses(a: Side, b: Side) -> (r: bool)
    ensures
        r == (a != Side::OnLine && b != Side::OnLine && a != b),
{
    a != Side::OnLine && b != Side::OnLine && a != b
}

/// Where a cut curve meets a face: points on its edges, given by the
/// edge's end vertices with the point's position and parameter coordinates,
/// and the face's own vertices that lie on the curve.
pub struct TriangleIntersection {
    pub edge_points: Vec<(usize, usize, glam::Vec3, glam::Vec2)>,
    pub on_line_vertices: Vec<usize>,
}

/// Largest size that the editing steps let the mesh reach.
pub open spec fn size_limit() -> int {
    (usize::MAX / 8) as int
}

impl HalfEdgeMesh {
    /// `m` differs from `self` at most in the `cut` marks of half-edges.
    pub open spec fn same_but_cut(&self, m: HalfEdgeMesh) -> bool {
        &&& m.vertices@ == self.vertices@
        &&& m.faces@ == self.faces@
        &&& m.nh() == self.nh()
        &&& forall|x: int| 0 <= x < self.nh() ==> (#[trigger] m.half_edges@[x]) == (HalfEdge { cut: m.half_edges@[x].cut, ..self.half_edges@[x] })
    }

    /// The mesh is far enough from the limits of `usize` for one more
    /// editing step.
    pub open spec fn roomy(&self) -> bool {
        &&& self.nv() < size_limit()
        &&& self.nh() < size_limit()
        &&& self.nf() < size_limit()
    }

    /// Whether the mesh is far enough from the limits of `usize` for one
    /// more editing step.
    pub fn has_room(&self) -> (r: bool)
        ensures
            r == self.roomy(),
    {
        let lim = usize::MAX / 8;
        self.vertices.len() < lim && self.half_edges.len() < lim && self.faces.len() < lim
    }

    pub(crate) fn set_cut(&mut self, h: usize, x: bool)
        requires
            h < old(self).nh(),
        ensures
            final(self).half_edges@ == old(self).half_edges@.update(h as int, HalfEdge { cut: x, ..old(self).half_edges@[h as int] }),
            final(self).vertices@ == old(self).vertices@,
            final(self).faces@ == old(self).faces@,
    {
        let mut e = self.half_edges[h];
        e.cut = x;
        self.half_edges.set(h, e);
    }

    /// Changing only `cut` marks keeps a mesh well-formed.
    pub proof fn lemma_same_but_cut(&self, m: HalfEdgeMesh)
        requires
            self.same_but_cut(m),
        ensures
            self.wf() ==> m.wf(),
            self.bounded() ==> m.bounded(),
    {
        assert forall|x: int| 0 <= x < self.nh() implies (#[trigger] m.half_edges@[x]).next == self.half_edges@[x].next by {
            let _ = m.half_edges@[x];
        }
        if self.bounded() {
            assert forall|x: int| 0 <= x < m.nh() implies (#[trigger] m.half_edges@[x]).next.0 < m.nh() by {
                let _ = self.half_edges@[x];
            }
            assert forall|x: int| 0 <= x < m.nh() implies {
                &&& (#[trigger] m.half_edges@[x]).prev.0 < m.nh()
                &&& m.half_edges@[x].origin.0 < m.nv()
                &&& m.half_edges@[x].face.0 < m.nf()
                &&& (m.half_edges@[x].twin.0 == none_id() || m.half_edges@[x].twin.0 < m.nh())
            } by {
                let _ = self.half_edges@[x];
            }
        }
        if self.wf() {
            assert forall|x: int| 0 <= x < m.nh() implies #[trigger] m.link_ok(x) by {
                assert(self.link_ok(x));
                let e = self.half_edges@[x];
                let _ = m.half_edges@[x];
                let _ = m.half_edges@[e.next.0 as int];
                let _ = m.half_edges@[e.prev.0 as int];
                if e.twin.0 != none_id() {
                    let _ = m.half_edges@[e.twin.0 as int];
                }
            }
            assert forall|f: int| 0 <= f < m.nf() implies #[trigger] m.face_ok(f) by {
                assert(self.face_ok(f));
                let _ = m.half_edges@[self.faces@[f].half_edge.0 as int];
            }
            assert forall|v: int| 0 <= v < m.nv() implies #[trigger] m.vertex_ok(v) by {
                assert(self.vertex_ok(v));
                if self.vertices@[v].outgoing.0 != none_id() {
                    let _ = m.half_edges@[self.vertices@[v].outgoing.0 as int];
                }
            }
        }
    }
}

/// Vertex, parameter coordinates and position of each corner of `face`, in
/// the order of the face's walk.
pub open spec fn face_corners(mesh: HalfEdgeMesh, face: int) -> Seq<(usize, glam::Vec2, glam::Vec3)> {
    mesh.face_walk(face).map_values(
        |h: HalfEdgeId|
            {
                let o = mesh.half_edges@[h.0 as int].origin.0;
                (o, mesh.vertices@[o as int].uv, mesh.vertices@[o as int].position)
            },
    )
}

/// Half-edge `h` runs from `a` to `b`.
pub open spec fn runs(mesh: HalfEdgeMesh, h: HalfEdgeId, a: VertexId, b: VertexId) -> bool {
    mesh.half_edges@[h.0 as int].origin == a && mesh.dest_of(h) == b
}

/// Half-edge `h` joins `a` and `b`, in either direction.
pub open spec fn joins(mesh: HalfEdgeMesh, h: HalfEdgeId, a: VertexId, b: VertexId) -> bool {
    runs(mesh, h, a, b) || runs(mesh, h, b, a)
}

/// The corners of `face` in walk order, with their coordinates and positions.
pub fn get_face_uvs(mesh: &HalfEdgeMesh, face: FaceId) -> (r: Vec<(usize, glam::Vec2, glam::Vec3)>)
    requires
        mesh.bounded(),
        face.0 < mesh.nf(),
    ensures
        r@ == face_corners(*mesh, face.0 as int),
        mesh.wf() ==> mesh.is_cycle(mesh.face_walk(face.0 as int)),
{
    let hes = mesh.face_half_edges(face);
    let mut r: Vec<(usize, glam::Vec2, glam::Vec3)> = Vec::new();
    let mut i: usize = 0;
    while i < hes.len()
        invariant
            mesh.bounded(),
            i <= hes@.len(),
            hes@ == mesh.face_walk(face.0 as int),
            forall|k: int| 0 <= k < hes@.len() ==> (#[trigger] hes@[k]).0 < mesh.nh(),
            r@ == face_corners(*mesh, face.0 as int).take(i as int),
        decreases hes@.len() - i,
    {
        let v = mesh.half_edges[hes[i].0].origin.0;
        proof {
            let _ = mesh.half_edges@[hes@[i as int].0 as int];
        }
        r.push((v, mesh.vertices[v].uv, mesh.vertices[v].position));
        proof {
            assert(r@ =~= face_corners(*mesh, face.0 as int).take(i + 1));
        }
        i = i + 1;
    }
    proof {
        assert(r@ =~= face_corners(*mesh, face.0 as int));
    }
    r
}

/// The first half-edge on the walk of `face` that runs from `va` to `vb`.
pub fn find_half_edge_on_face(mesh: &HalfEdgeMesh, face: FaceId, va: VertexId, vb: VertexId) -> (r: Option<HalfEdgeId>)
    requires
        mesh.bounded(),
        face.0 < mesh.nf(),
    ensures
        ({
            let c = mesh.face_walk(face.0 as int);
            &&& r is None <==> forall|j: int| 0 <= j < c.len() ==> !runs(*mesh, #[trigger] c[j], va, vb)
            &&& r matches Some(h) ==> exists|j: int|
                0 <= j < c.len() && c[j] == h && runs(*mesh, h, va, vb) && forall|i: int| 0 <= i < j ==> !runs(*mesh, #[trigger] c[i], va, vb)
            &&& r matches Some(h) ==> h.0 < mesh.nh()
        }),
        mesh.wf() ==> mesh.is_cycle(mesh.face_walk(face.0 as int)),
{
    let hes = mesh.face_half_edges(face);
    let mut i: usize = 0;
    while i < hes.len()
        invariant
            mesh.bounded(),
            i <= hes@.len(),
            hes@ == mesh.face_walk(face.0 as int),
            forall|k: int| 0 <= k < hes@.len() ==> (#[trigger] hes@[k]).0 < mesh.nh(),
            forall|j: int| 0 <= j < i ==> !runs(*mesh, #[trigger] hes@[j], va, vb),
            mesh.wf() ==> mesh.is_cycle(hes@),
        decreases hes@.len() - i,
    {
        let h = hes[i];
        let e = mesh.half_edges[h.0];
        proof {
            let _ = mesh.half_edges@[h.0 as int];
        }
        if e.origin == va && mesh.half_edges[e.next.0].origin == vb {
            return Some(h);
        }
        i = i + 1;
    }
    None
}

/// Marks the edge of `face` between `a` and `b` (the first half-edge on the
/// face's walk that joins them, and its twin) as lying on a cut curve.
/// Returns whether the face has such an edge; otherwise nothing changes.
pub fn mark_edge_cut_between(mesh: &mut HalfEdgeMesh, face: FaceId, a: VertexId, b: VertexId) -> (r: bool)
    requires
        old(mesh).bounded(),
        face.0 < old(mesh).nf(),
    ensures
        old(mesh).same_but_cut(*final(mesh)),
        old(mesh).wf() ==> final(mesh).wf(),
        final(mesh).bounded(),
        forall|k: int| 0 <= k < old(mesh).face_walk(face.0 as int).len() ==> (#[trigger] old(mesh).face_walk(face.0 as int)[k]).0 < old(mesh).nh(),
        ({
            let c = old(mesh).face_walk(face.0 as int);
            &&& r <==> exists|j: int| 0 <= j < c.len() && joins(*old(mesh), #[trigger] c[j], a, b)
            &&& !r ==> *final(mesh) == *old(mesh)
            &&& r ==> exists|j: int|
                0 <= j < c.len() && joins(*old(mesh), c[j], a, b) && (forall|i: int| 0 <= i < j ==> !joins(*old(mesh), #[trigger] c[i], a, b))
                    && forall|x: int|
                    0 <= x < old(mesh).nh() ==> (#[trigger] final(mesh).half_edges@[x]).cut == (old(mesh).half_edges@[x].cut || x == c[j].0
                        || x == old(mesh).half_edges@[c[j].0 as int].twin.0)
        }),
{
    let ghost m0 = *mesh;
    let nh = mesh.half_edges.len();
    let hes = mesh.face_half_edges(face);
    let mut i: usize = 0;
    while i < hes.len()
        invariant
            nh == m0.nh(),
            *mesh == m0,
            m0 == *old(mesh),
            m0.bounded(),
            i <= hes@.len(),
            hes@ == m0.face_walk(face.0 as int),
            forall|k: int| 0 <= k < hes@.len() ==> (#[trigger] hes@[k]).0 < m0.nh(),
            forall|j: int| 0 <= j < i ==> !joins(m0, #[trigger] hes@[j], a, b),
        decreases hes@.len() - i,
    {
        let h = hes[i];
        let e = mesh.half_edges[h.0];
        proof {
            let _ = mesh.half_edges@[h.0 as int];
        }
        let nb = mesh.half_edges[e.next.0].origin;
        if (e.origin == a && nb == b) || (e.origin == b && nb == a) {
            mesh.set_cut(h.0, true);
            let t = mesh.half_edges[h.0].twin;
            if t.0 != usize::MAX {
                mesh.set_cut(t.0, true);
            }
            proof {
                let m1 = *mesh;
                assert forall|x: int| 0 <= x < m0.nh() implies (#[trigger] m1.half_edges@[x]) == (HalfEdge { cut: m1.half_edges@[x].cut, ..m0.half_edges@[x] }) by {}
                m0.lemma_same_but_cut(m1);
                assert(joins(m0, hes@[i as int], a, b));
                let hi = hes@[i as int];
                assert forall|x: int| 0 <= x < m0.nh() implies (#[trigger] m1.half_edges@[x]).cut == (m0.half_edges@[x].cut || x == hi.0
                    || x == m0.half_edges@[hi.0 as int].twin.0) by {
                    if t.0 == usize::MAX {
                        assert(x != usize::MAX);
                    }
                }
                assert(forall|k: int| 0 <= k < i ==> !joins(m0, #[trigger] hes@[k], a, b));
            }
            return true;
        }
        i = i + 1;
    }
    proof {
        m0.lemma_same_but_cut(m0);
    }
    false
}

/// The vertices of `verts` that are corners of `face`, in the order of the
/// face's walk (a vertex met twice on the walk appears twice).
pub open spec fn verts_on_walk(mesh: HalfEdgeMesh, c: Seq<HalfEdgeId>, verts: Seq<VertexId>) -> Seq<VertexId>
    decreases c.len(),
{
    if c.len() == 0 {
        Seq::empty()
    } else {
        let o = mesh.half_edges@[c.last().0 as int].origin;
        let rest = verts_on_walk(mesh, c.drop_last(), verts);
        if verts.contains(o) {
            rest.push(o)
        } else {
            rest
        }
    }
}

/// Whether `v` is one of `verts`.
pub fn contains_vertex(verts: &[VertexId], v: VertexId) -> (r: bool)
    ensures
        r == verts@.contains(v),
{
    let mut i: usize = 0;
    while i < verts.len()
        invariant
            i <= verts@.len(),
            forall|j: int| 0 <= j < i ==> verts@[j] != v,
        decreases verts@.len() - i,
    {
        if verts[i] == v {
            return true;
        }
        i = i + 1;
    }
    false
}

/// The vertices of `verts` that are corners of `face`, in the face's order.
pub fn order_verts_on_face(mesh: &HalfEdgeMesh, face: FaceId, verts: &[VertexId]) -> (r: Vec<VertexId>)
    requires
        mesh.bounded(),
        face.0 < mesh.nf(),
    ensures
        r@ == verts_on_walk(*mesh, mesh.face_walk(face.0 as int), verts@),
        forall|i: int| 0 <= i < r@.len() ==> (#[trigger] r@[i]).0 < mesh.nv(),
{
    let hes = mesh.face_half_edges(face);
    let mut ordered: Vec<VertexId> = Vec::new();
    let mut i: usize = 0;
    while i < hes.len()
        invariant
            mesh.bounded(),
            i <= hes@.len(),
            hes@ == mesh.face_walk(face.0 as int),
            forall|k: int| 0 <= k < hes@.len() ==> (#[trigger] hes@[k]).0 < mesh.nh(),
            ordered@ == verts_on_walk(*mesh, hes@.take(i as int), verts@),
        decreases hes@.len() - i,
    {
        let o = mesh.half_edges[hes[i].0].origin;
        proof {
            assert(hes@.take(i + 1).drop_last() =~= hes@.take(i as int));
        }
        if contains_vertex(verts, o) {
            ordered.push(o);
        }
        i = i + 1;
    }
    proof {
        assert(hes@.take(hes@.len() as int) =~= hes@);
        lemma_verts_on_walk_bounded(*mesh, hes@, verts@);
    }
    ordered
}

/// Whether an edge joins `a` to `b`, as seen from the walk around `a`.
pub fn are_adjacent(mesh: &HalfEdgeMesh, a: VertexId, b: VertexId) -> (r: bool)
    requires
        mesh.wf(),
        a.0 < mesh.nv(),
    ensures
        r == mesh.connected(a, b),
{
    mesh.are_vertices_connected(a, b)
}

/// Every half-edge has a twin: the mesh has no boundary.
pub open spec fn watertight(m: HalfEdgeMesh) -> bool {
    forall|h: int| 0 <= h < m.nh() ==> (#[trigger] m.half_edges@[h]).twin.0 != none_id()
}

/// What every editing step keeps: existing vertices keep their position and
/// coordinates, existing faces keep their validity and patch, existing
/// half-edges keep their cut marks, nothing is removed, and a mesh without
/// boundary gets none.
pub open spec fn keeps(m0: HalfEdgeMesh, m1: HalfEdgeMesh) -> bool {
    &&& watertight(m0) ==> watertight(m1)
    &&& m0.nv() <= m1.nv()
    &&& m0.nh() <= m1.nh()
    &&& m0.nf() <= m1.nf()
    &&& forall|v: int|
        0 <= v < m0.nv() ==> (#[trigger] m1.vertices@[v]).position == m0.vertices@[v].position && m1.vertices@[v].uv
            == m0.vertices@[v].uv
    &&& forall|f: int|
        0 <= f < m0.nf() ==> (#[trigger] m1.faces@[f]).valid == m0.faces@[f].valid && m1.faces@[f].patch_index
            == m0.faces@[f].patch_index
    &&& forall|x: int| 0 <= x < m0.nh() ==> (#[trigger] m1.half_edges@[x]).cut == m0.half_edges@[x].cut
}

pub proof fn lemma_keeps_refl(m: HalfEdgeMesh)
    ensures
        keeps(m, m),
{
}

pub proof fn lemma_keeps_trans(m0: HalfEdgeMesh, m1: HalfEdgeMesh, m2: HalfEdgeMesh)
    requires
        keeps(m0, m1),
        keeps(m1, m2),
    ensures
        keeps(m0, m2),
{
    assert forall|v: int| 0 <= v < m0.nv() implies (#[trigger] m2.vertices@[v]).position == m0.vertices@[v].position
        && m2.vertices@[v].uv == m0.vertices@[v].uv by {
        let _ = m1.vertices@[v];
    }
    assert forall|f: int| 0 <= f < m0.nf() implies (#[trigger] m2.faces@[f]).valid == m0.faces@[f].valid
        && m2.faces@[f].patch_index == m0.faces@[f].patch_index by {
        let _ = m1.faces@[f];
    }
    assert forall|x: int| 0 <= x < m0.nh() implies (#[trigger] m2.half_edges@[x]).cut == m0.half_edges@[x].cut by {
        let _ = m1.half_edges@[x];
    }
}

/// An edge split keeps what `keeps` asks for.
pub proof fn lemma_keeps_split_edge(m0: HalfEdgeMesh, m1: HalfEdgeMesh, h: int, v: VertexId, position: glam::Vec3, uv: glam::Vec2)
    requires
        0 <= h < m0.nh(),
        crate::mesh::half_edge::split_edge_relation(m0, m1, h, v, position, uv),
    ensures
        keeps(m0, m1),
{
    assert forall|w: int| 0 <= w < m0.nv() implies (#[trigger] m1.vertices@[w]).position == m0.vertices@[w].position
        && m1.vertices@[w].uv == m0.vertices@[w].uv by {
        assert(m1.vertices@[w] == m0.vertices@[w]);
    }
    assert forall|x: int| 0 <= x < m0.nh() implies (#[trigger] m1.half_edges@[x]).cut == m0.half_edges@[x].cut by {
        let _ = m1.half_edges@[x];
    }
    if watertight(m0) && 0 <= h < m0.nh() {
        let n0 = m0.nh();
        assert(m1.half_edges.len() == m1.nh());
        assert(m0.half_edges@[h].twin.0 != none_id());
        assert(m1.nh() == n0 + 2);
        assert forall|x: int| 0 <= x < m1.nh() implies (#[trigger] m1.half_edges@[x]).twin.0 != none_id() by {
            if x < n0 {
                assert(m0.half_edges@[x].twin.0 != none_id());
            } else if x == n0 {
                assert(m1.half_edges@[n0].twin.0 == m0.half_edges@[h].twin.0);
            } else {
                assert(m1.half_edges@[n0 + 1].twin.0 == h);
            }
        }
    }
}

/// A face split keeps what `keeps` asks for; its two new half-edges carry
/// the requested cut mark.
pub proof fn lemma_keeps_split_face(m0: HalfEdgeMesh, m1: HalfEdgeMesh, face: int, va: VertexId, vb: VertexId, cut_edge: bool)
    requires
        0 <= face < m0.nf(),
        crate::mesh::face_split::split_face_relation(m0, m1, face, va, vb, cut_edge),
    ensures
        keeps(m0, m1),
        m1.half_edges@[m0.nh()].cut == cut_edge,
        m1.half_edges@[m0.nh() + 1].cut == cut_edge,
        m1.faces@[m0.nf()].valid,
{
    assert forall|x: int| 0 <= x < m0.nh() implies (#[trigger] m1.half_edges@[x]).cut == m0.half_edges@[x].cut by {
        let _ = m1.half_edges@[x];
    }
    assert forall|f: int| 0 <= f < m0.nf() implies (#[trigger] m1.faces@[f]).valid == m0.faces@[f].valid
        && m1.faces@[f].patch_index == m0.faces@[f].patch_index by {
        if f != face {
            assert(m1.faces@[f] == m0.faces@[f]);
        }
    }
    if watertight(m0) {
        assert(m1.half_edges.len() == m1.nh());
        assert forall|x: int| 0 <= x < m1.nh() implies (#[trigger] m1.half_edges@[x]).twin.0 != none_id() by {
            if x < m0.nh() {
                let _ = m0.half_edges@[x];
            }
        }
    }
}

/// Whether the first step of triangulating face `f` can be taken: the face
/// has more than three corners, the mesh has room, and the diagonal from its
/// first to its third corner joins two distinct corners not already joined
/// round the face (see `split_face_refused`).
pub open spec fn fan_step_allowed(m: HalfEdgeMesh, f: int) -> bool {
    let c = m.face_walk(f);
    let v0 = m.half_edges@[c[0].0 as int].origin;
    let v2 = m.half_edges@[c[2].0 as int].origin;
    &&& c.len() > 3
    &&& m.roomy()
    &&& v0 != v2
    &&& !m.split_face_refused(f, v0, v2)
}

/// Triangulation of face `f` has come to an end in `m` (started from
/// `m0`): the face has at most three corners, its next diagonal cannot be
/// added (see `fan_step_allowed`), or 4096 diagonals have been added.
pub open spec fn fan_done(m0: HalfEdgeMesh, m: HalfEdgeMesh, f: int) -> bool {
    ||| m.face_walk(f).len() <= 3
    ||| !fan_step_allowed(m, f)
    ||| m.nf() >= m0.nf() + 4096
}

/// Face `g` is finished as far as triangulating from `m0` goes: it has at
/// most three corners, its next diagonal cannot be added (see
/// `fan_step_allowed`), or the triangulation has used up its steps (4095
/// diagonals added).
pub open spec fn piece_done(m0: HalfEdgeMesh, m: HalfEdgeMesh, g: int) -> bool {
    ||| m.face_walk(g).len() <= 3
    ||| !fan_step_allowed(m, g)
    ||| m.nf() >= m0.nf() + 4095
}

/// A finished face stays finished when another face is split.
proof fn lemma_piece_done_kept(m0: HalfEdgeMesh, before: HalfEdgeMesh, after: HalfEdgeMesh, f: int, va: VertexId, vb: VertexId, g: int)
    requires
        before.wf(),
        0 <= f < before.nf(),
        before.faces@[f].valid,
        !before.split_face_refused(f, va, vb),
        crate::mesh::face_split::split_face_relation(before, after, f, va, vb, false),
        after.wf(),
        keeps(before, after),
        0 <= g < before.nf(),
        g != f,
        before.faces@[g].valid,
        piece_done(m0, before, g),
    ensures
        piece_done(m0, after, g),
{
    before.lemma_face_walk_ok(f);
    before.lemma_face_walk_ok(g);
    lemma_split_face_keeps_other_walk(before, after, f, va, vb, false, g);
    if fan_step_allowed(after, g) {
        lemma_fan_step_allowed_back(before, after, g);
    }
}

/// A step that is allowed after edits elsewhere, which left the face's walk
/// and the corners and links along it alone and only grew the mesh, was
/// allowed before.
proof fn lemma_fan_step_allowed_back(m0: HalfEdgeMesh, m1: HalfEdgeMesh, f: int)
    requires
        m1.face_walk(f) == m0.face_walk(f),
        forall|j: int|
            0 <= j < m0.face_walk(f).len() ==> m1.half_edges@[(#[trigger] m0.face_walk(f)[j]).0 as int].origin
                == m0.half_edges@[m0.face_walk(f)[j].0 as int].origin && m1.next_of(m0.face_walk(f)[j]) == m0.next_of(
                m0.face_walk(f)[j],
            ),
        m0.nv() <= m1.nv(),
        m0.nh() <= m1.nh(),
        m0.nf() <= m1.nf(),
        fan_step_allowed(m1, f),
    ensures
        fan_step_allowed(m0, f),
{
    let c = m0.face_walk(f);
    let _ = c[0];
    let _ = c[2];
    let v0 = m0.half_edges@[c[0].0 as int].origin;
    let v2 = m0.half_edges@[c[2].0 as int].origin;
    lemma_last_origin_same(m0, m1, c, v0, c.len() as int);
    lemma_last_origin_same(m0, m1, c, v2, c.len() as int);
    crate::mesh::face_split::lemma_last_origin(m0, c, v0, c.len() as int);
    crate::mesh::face_split::lemma_last_origin(m0, c, v2, c.len() as int);
    let ia = m0.last_origin_in(c, v0, c.len() as int);
    let ib = m0.last_origin_in(c, v2, c.len() as int);
    if ia >= 0 {
        let _ = c[ia];
    }
    if ib >= 0 {
        let _ = c[ib];
    }
}

/// Triangulates `face` as a fan: while the face has more than three
/// corners, a new (uncut) diagonal from its first to its third corner cuts
/// off a triangle; a split-off piece with more than three corners is
/// triangulated in turn. A face is given up after 4096 diagonals, or when a
/// diagonal is refused or would be a loop. Only diagonals are added, each
/// with a new face; no vertex is added, and the first diagonal is added
/// whenever `fan_step_allowed` says it can be. The face ends with at most
/// three corners unless its next diagonal cannot be added or 4096 were
/// added (see `fan_done`), each face it creates is finished too (see
/// `piece_done`), and the walks of the other faces are left alone.
pub fn triangulate_face(mesh: &mut HalfEdgeMesh, face: FaceId)
    requires
        old(mesh).wf(),
        face.0 < old(mesh).nf(),
        old(mesh).faces@[face.0 as int].valid,
    ensures
        final(mesh).wf(),
        keeps(*old(mesh), *final(mesh)),
        forall|x: int| old(mesh).nh() <= x < final(mesh).nh() ==> !(#[trigger] final(mesh).half_edges@[x]).cut,
        final(mesh).vertices@ == old(mesh).vertices@,
        final(mesh).nh() == old(mesh).nh() + 2 * (final(mesh).nf() - old(mesh).nf()),
        final(mesh).nf() == old(mesh).nf() ==> *final(mesh) == *old(mesh),
        fan_step_allowed(*old(mesh), face.0 as int) ==> final(mesh).nf() > old(mesh).nf(),
        euler_characteristic(*final(mesh)) == euler_characteristic(*old(mesh)),
        fan_done(*old(mesh), *final(mesh), face.0 as int),
        final(mesh).nf() <= old(mesh).nf() + 4096 * 4096,
        walk_ok(*final(mesh), face.0 as int),
        forall|f: int|
            0 <= f < old(mesh).nf() && f != face.0 && old(mesh).faces@[f].valid && walk_ok(*old(mesh), f) ==> #[trigger] walk_kept(
                *old(mesh),
                *final(mesh),
                f,
            ),
        forall|g: int|
            old(mesh).nf() <= g < final(mesh).nf() && #[trigger] final(mesh).faces@[g].valid ==> piece_done(
                *old(mesh),
                *final(mesh),
                g,
            ),
{
    let ghost m0 = *mesh;
    let mut queue: Vec<FaceId> = Vec::new();
    queue.push(face);
    let mut pops: usize = 0;
    proof {
        lemma_keeps_refl(m0);
    }
    while queue.len() > 0 && pops < 4096
        invariant
            m0 == *old(mesh),
            face.0 < m0.nf(),
            mesh.wf(),
            keeps(m0, *mesh),
            forall|x: int| m0.nh() <= x < mesh.nh() ==> !(#[trigger] mesh.half_edges@[x]).cut,
            forall|k: int| 0 <= k < queue@.len() ==> (#[trigger] queue@[k]).0 < mesh.nf() && mesh.faces@[queue@[k].0 as int].valid,
            mesh.vertices@ == m0.vertices@,
            euler_characteristic(*mesh) == euler_characteristic(m0),
            mesh.nh() == m0.nh() + 2 * (mesh.nf() - m0.nf()),
            mesh.nf() == m0.nf() ==> *mesh == m0,
            pops == 0 ==> *mesh == m0 && queue@ == seq![face],
            pops > 0 && fan_step_allowed(m0, face.0 as int) ==> mesh.nf() > m0.nf(),
            pops > 0 ==> fan_done(m0, *mesh, face.0 as int) && walk_ok(*mesh, face.0 as int) && mesh.faces@[face.0 as int].valid,
            pops > 0 ==> forall|k: int| 0 <= k < queue@.len() ==> (#[trigger] queue@[k]).0 >= m0.nf(),
            forall|g: int|
                0 <= g < m0.nf() && g != face.0 && m0.faces@[g].valid && walk_ok(m0, g) ==> #[trigger] walk_kept(m0, *mesh, g),
            pops <= 4096,
            mesh.nf() <= m0.nf() + pops * 4096,
            pops + queue@.len() <= 1 + mesh.nf() - m0.nf(),
            forall|g: int|
                m0.nf() <= g < mesh.nf() && #[trigger] mesh.faces@[g].valid ==> queue@.contains(FaceId(g as usize))
                    || piece_done(m0, *mesh, g),
        decreases 4096 - pops,
    {
        let ghost qb = queue@;
        let f = queue.pop().unwrap();
        proof {
            assert forall|x: FaceId| #[trigger] qb.contains(x) implies x == f || queue@.contains(x) by {
                let k = choose|k: int| 0 <= k < qb.len() && qb[k] == x;
                if k < queue@.len() {
                    assert(queue@[k] == qb[k]);
                }
            }
        }
        pops = pops + 1;
        let ghost nf_pop = mesh.nf();
        let mut guard: usize = 0;
        while mesh.face_half_edges(f).len() > 3
            invariant_except_break
                pops == 1 ==> mesh.nf() == m0.nf() + guard,
                mesh.nf() == nf_pop + guard,
            invariant
                nf_pop >= m0.nf(),
                pops + queue@.len() <= 1 + mesh.nf() - m0.nf(),
                forall|g: int|
                    m0.nf() <= g < mesh.nf() && #[trigger] mesh.faces@[g].valid ==> g == f.0 || queue@.contains(FaceId(g as usize))
                        || piece_done(m0, *mesh, g),
                m0 == *old(mesh),
                face.0 < m0.nf(),
                mesh.wf(),
                keeps(m0, *mesh),
                forall|x: int| m0.nh() <= x < mesh.nh() ==> !(#[trigger] mesh.half_edges@[x]).cut,
                forall|k: int| 0 <= k < queue@.len() ==> (#[trigger] queue@[k]).0 < mesh.nf() && mesh.faces@[queue@[k].0 as int].valid,
                f.0 < mesh.nf(),
                mesh.faces@[f.0 as int].valid,
                guard <= 4096,
                mesh.vertices@ == m0.vertices@,
                euler_characteristic(*mesh) == euler_characteristic(m0),
                mesh.nh() == m0.nh() + 2 * (mesh.nf() - m0.nf()),
                mesh.nf() == m0.nf() ==> *mesh == m0,
                pops == 1 && guard == 0 ==> *mesh == m0 && f == face,
                pops > 1 && fan_step_allowed(m0, face.0 as int) ==> mesh.nf() > m0.nf(),
                pops == 1 && guard > 0 && fan_step_allowed(m0, face.0 as int) ==> mesh.nf() > m0.nf(),
                pops == 1 ==> f == face,
                pops >= 1,
                pops <= 4096,
                mesh.nf() <= m0.nf() + (pops - 1) * 4096 + guard,
                pops > 1 ==> f.0 >= m0.nf() && fan_done(m0, *mesh, face.0 as int) && walk_ok(*mesh, face.0 as int)
                    && mesh.faces@[face.0 as int].valid,
                forall|k: int| 0 <= k < queue@.len() ==> (#[trigger] queue@[k]).0 >= m0.nf(),
                forall|g: int|
                    0 <= g < m0.nf() && g != face.0 && m0.faces@[g].valid && walk_ok(m0, g) ==> #[trigger] walk_kept(m0, *mesh, g),
            ensures
                m0 == *old(mesh),
                mesh.wf(),
                keeps(m0, *mesh),
                forall|x: int| m0.nh() <= x < mesh.nh() ==> !(#[trigger] mesh.half_edges@[x]).cut,
                forall|k: int| 0 <= k < queue@.len() ==> (#[trigger] queue@[k]).0 < mesh.nf() && mesh.faces@[queue@[k].0 as int].valid,
                f.0 < mesh.nf(),
                mesh.faces@[f.0 as int].valid,
                mesh.vertices@ == m0.vertices@,
                euler_characteristic(*mesh) == euler_characteristic(m0),
                mesh.nh() == m0.nh() + 2 * (mesh.nf() - m0.nf()),
                mesh.nf() == m0.nf() ==> *mesh == m0,
                pops > 0 && fan_step_allowed(m0, face.0 as int) ==> mesh.nf() > m0.nf(),
                pops > 0 ==> fan_done(m0, *mesh, face.0 as int) && walk_ok(*mesh, face.0 as int) && mesh.faces@[face.0 as int].valid,
                pops > 0 ==> forall|k: int| 0 <= k < queue@.len() ==> (#[trigger] queue@[k]).0 >= m0.nf(),
                forall|g: int|
                    0 <= g < m0.nf() && g != face.0 && m0.faces@[g].valid && walk_ok(m0, g) ==> #[trigger] walk_kept(m0, *mesh, g),
                mesh.nf() <= m0.nf() + pops * 4096,
                pops + queue@.len() <= 1 + mesh.nf() - m0.nf(),
                forall|g: int|
                    m0.nf() <= g < mesh.nf() && #[trigger] mesh.faces@[g].valid ==> g == f.0 || queue@.contains(FaceId(g as usize))
                        || piece_done(m0, *mesh, g),
                piece_done(m0, *mesh, f.0 as int),
            decreases 4096 - guard,
        {
            if guard >= 4096 {
                break;
            }
            guard = guard + 1;
            if !mesh.has_room() {
                break;
            }
            let hes = mesh.face_half_edges(f);
            let v0 = mesh.half_edges[hes[0].0].origin;
            let v2 = mesh.half_edges[hes[2].0].origin;
            if v0 == v2 {
                break;
            }
            let ghost before = *mesh;
            let nf = mesh.split_face(f, v0, v2, false);
            if nf == f {
                break;
            }
            proof {
                assert forall|g: int|
                    0 <= g < m0.nf() && g != face.0 && m0.faces@[g].valid && walk_ok(m0, g) implies #[trigger] walk_kept(
                    m0,
                    *mesh,
                    g,
                ) by {
                    assert(walk_kept(m0, before, g));
                    lemma_split_face_keeps_other_walk(before, *mesh, f.0 as int, v0, v2, false, g);
                    lemma_walk_kept_trans(m0, before, *mesh, g);
                }
                if pops > 1 {
                    lemma_split_face_keeps_other_walk(before, *mesh, f.0 as int, v0, v2, false, face.0 as int);
                    if fan_step_allowed(*mesh, face.0 as int) {
                        lemma_fan_step_allowed_back(before, *mesh, face.0 as int);
                    }
                }
                lemma_split_face_keeps_euler(before, *mesh, f.0 as int, v0, v2, false);
                lemma_keeps_split_face(before, *mesh, f.0 as int, v0, v2, false);
                lemma_keeps_trans(m0, before, *mesh);
                assert forall|x: int| m0.nh() <= x < mesh.nh() implies !(#[trigger] mesh.half_edges@[x]).cut by {
                    if x < before.nh() {
                        assert(mesh.half_edges@[x].cut == before.half_edges@[x].cut);
                    }
                }
                assert forall|k: int| 0 <= k < queue@.len() implies (#[trigger] queue@[k]).0 < mesh.nf() && mesh.faces@[queue@[k].0 as int].valid by {
                    assert(before.faces@[queue@[k].0 as int].valid);
                }
                assert forall|g: int|
                    m0.nf() <= g < before.nf() && #[trigger] mesh.faces@[g].valid && g != f.0 && !queue@.contains(
                        FaceId(g as usize),
                    ) implies piece_done(m0, *mesh, g) by {
                    assert(before.faces@[g].valid);
                    lemma_piece_done_kept(m0, before, *mesh, f.0 as int, v0, v2, g);
                }
            }
            let ghost q0 = queue@;
            if mesh.face_half_edges(nf).len() > 3 {
                queue.push(nf);
                proof {
                    assert(queue@.last() == nf);
                    assert forall|x: FaceId| #[trigger] q0.contains(x) implies queue@.contains(x) by {
                        let k = choose|k: int| 0 <= k < q0.len() && q0[k] == x;
                        assert(queue@[k] == q0[k]);
                    }
                    assert(queue@.contains(nf));
                }
            }
        }
    }
    proof {
        assert forall|g: int| m0.nf() <= g < mesh.nf() && #[trigger] mesh.faces@[g].valid implies piece_done(m0, *mesh, g) by {
            if queue@.len() == 0 {
                assert(!queue@.contains(FaceId(g as usize)));
            }
        }
    }
}

/// The vertices kept by `verts_on_walk` are corners of the walk.
pub proof fn lemma_verts_on_walk_bounded(m: HalfEdgeMesh, c: Seq<HalfEdgeId>, verts: Seq<VertexId>)
    requires
        m.bounded(),
        forall|j: int| 0 <= j < c.len() ==> (#[trigger] c[j]).0 < m.nh(),
    ensures
        forall|i: int| 0 <= i < verts_on_walk(m, c, verts).len() ==> (#[trigger] verts_on_walk(m, c, verts)[i]).0 < m.nv(),
    decreases c.len(),
{
    if c.len() > 0 {
        let d = c.drop_last();
        assert forall|j: int| 0 <= j < d.len() implies (#[trigger] d[j]).0 < m.nh() by {
            assert(d[j] == c[j]);
        }
        lemma_verts_on_walk_bounded(m, d, verts);
        let _ = m.half_edges@[c.last().0 as int];
        let rest = verts_on_walk(m, d, verts);
        assert forall|i: int| 0 <= i < verts_on_walk(m, c, verts).len() implies (#[trigger] verts_on_walk(m, c, verts)[i]).0 < m.nv() by {
            if i < rest.len() {
                assert(verts_on_walk(m, c, verts)[i] == rest[i]);
            }
        }
    }
}

/// `isect` meets a face of `m` only along the face's edges: it has no edge
/// point, and any two distinct vertices it reports on the curve are joined
/// by an edge of `m`.
pub open spec fn meets_along_edges(m: HalfEdgeMesh, isect: TriangleIntersection) -> bool {
    let on = isect.on_line_vertices@;
    &&& isect.edge_points@.len() == 0
    &&& forall|i: int, j: int|
        #![trigger on[i], on[j]]
        0 <= i < on.len() && 0 <= j < on.len() && on[i] != on[j] ==> m.connected(VertexId(on[i]), VertexId(on[j]))
}

/// The vertices kept by `verts_on_walk` are among `verts`.
proof fn lemma_verts_on_walk_in(m: HalfEdgeMesh, c: Seq<HalfEdgeId>, verts: Seq<VertexId>)
    ensures
        forall|i: int| 0 <= i < verts_on_walk(m, c, verts).len() ==> verts.contains(#[trigger] verts_on_walk(m, c, verts)[i]),
    decreases c.len(),
{
    if c.len() > 0 {
        lemma_verts_on_walk_in(m, c.drop_last(), verts);
        let rest = verts_on_walk(m, c.drop_last(), verts);
        assert forall|i: int| 0 <= i < verts_on_walk(m, c, verts).len() implies verts.contains(#[trigger] verts_on_walk(m, c, verts)[i]) by {
            if i < rest.len() {
                assert(verts_on_walk(m, c, verts)[i] == rest[i]);
            }
        }
    }
}

/// The first point of `isect` lies on the edge between two consecutive
/// corners of `c` (a face's corners, in the order of its walk).
pub open spec fn first_point_on_edge(c: Seq<(usize, glam::Vec2, glam::Vec3)>, isect: TriangleIntersection) -> bool {
    &&& isect.edge_points@.len() > 0
    &&& exists|j: int|
        0 <= j < c.len() && (#[trigger] c[j]).0 == isect.edge_points@[0].0 && c[(j + 1) % (c.len() as int)].0
            == isect.edge_points@[0].1
}

/// Corners next to each other in `face_corners` are joined by a half-edge
/// of the face.
proof fn lemma_corner_edge(m: HalfEdgeMesh, face: int, isect: TriangleIntersection)
    requires
        m.bounded(),
        0 <= face < m.nf(),
        m.is_cycle(m.face_walk(face)),
        first_point_on_edge(face_corners(m, face), isect),
    ensures
        exists|j: int|
            0 <= j < m.face_walk(face).len() && runs(
                m,
                #[trigger] m.face_walk(face)[j],
                VertexId(isect.edge_points@[0].0),
                VertexId(isect.edge_points@[0].1),
            ),
{
    let c = m.face_walk(face);
    let fc = face_corners(m, face);
    let j = choose|j: int|
        0 <= j < fc.len() && (#[trigger] fc[j]).0 == isect.edge_points@[0].0 && fc[(j + 1) % (fc.len() as int)].0
            == isect.edge_points@[0].1;
    let n = c.len() as int;
    let j1 = (j + 1) % n;
    if j + 1 < n {
        vstd::arithmetic::div_mod::lemma_small_mod((j + 1) as nat, n as nat);
        assert(m.next_of(c[j]) == c[j + 1]);
    } else {
        vstd::arithmetic::div_mod::lemma_mod_self_0(n);
        assert(m.next_of(c[n - 1]) == c[0]);
    }
    assert(m.next_of(c[j]) == c[j1]);
    assert(fc[j1].0 == m.half_edges@[c[j1].0 as int].origin.0);
    assert(runs(m, c[j], VertexId(isect.edge_points@[0].0), VertexId(isect.edge_points@[0].1)));
}

/// Position and parameter coordinates of each edge point of `pts`.
pub open spec fn point_places(pts: Seq<(usize, usize, glam::Vec3, glam::Vec2)>) -> Seq<(glam::Vec3, glam::Vec2)> {
    pts.map_values(|p: (usize, usize, glam::Vec3, glam::Vec2)| (p.2, p.3))
}

/// The vertices `m1` has beyond those of `m0` are at most one for each of
/// the edge points `pts` and each lies where one of them does; when `hyp`
/// holds, the first new vertex is the first edge point.
spec fn new_vertices_from(m0: HalfEdgeMesh, m1: HalfEdgeMesh, pts: Seq<(usize, usize, glam::Vec3, glam::Vec2)>, hyp: bool) -> bool {
    &&& m1.nv() <= m0.nv() + pts.len()
    &&& forall|v: int|
        m0.nv() <= v < m1.nv() ==> point_places(pts).contains(((#[trigger] m1.vertices@[v]).position, m1.vertices@[v].uv))
    &&& hyp ==> m1.nv() > m0.nv() && m1.vertices@[m0.nv() as int].position == pts[0].2
        && m1.vertices@[m0.nv() as int].uv == pts[0].3
}

/// The vertices `isect` reports on the curve.
pub open spec fn on_line_ids(isect: TriangleIntersection) -> Seq<VertexId> {
    Seq::new(isect.on_line_vertices@.len(), |j: int| VertexId(isect.on_line_vertices@[j]))
}

/// `isect` has no edge points, and the first two of its vertices on the
/// curve, taken in the order of `face`'s walk, are distinct corners that no
/// edge joins and that a new diagonal of the face can join in a mesh with
/// room for it: the chord between them is a cut to add.
pub open spec fn first_chord_to_add(m: HalfEdgeMesh, face: int, isect: TriangleIntersection) -> bool {
    let ord = verts_on_walk(m, m.face_walk(face), on_line_ids(isect));
    &&& isect.edge_points@.len() == 0
    &&& isect.on_line_vertices@.len() >= 2
    &&& m.roomy()
    &&& ord.len() >= 2
    &&& ord[0] != ord[1]
    &&& !m.connected(ord[0], ord[1])
    &&& !m.split_face_refused(face, ord[0], ord[1])
}

/// Cuts `face` along a curve that meets it as `isect` says: each edge point
/// whose edge is still an edge of the face splits that edge at a new vertex;
/// these vertices and the face's vertices on the curve, taken in the face's
/// order, are joined one to the next (the last to the first) by cut
/// diagonals, skipping pairs already joined by an edge; when some diagonal
/// was added, every resulting piece with more than three corners is
/// triangulated. The new vertices are the edge points' (at most one each);
/// the first edge point, when it lies on an edge of the face and the mesh
/// has room, is the first new vertex.
pub fn cut_face_by_intersection(mesh: &mut HalfEdgeMesh, face: FaceId, isect: &TriangleIntersection)
    requires
        old(mesh).wf(),
        face.0 < old(mesh).nf(),
        old(mesh).faces@[face.0 as int].valid,
    ensures
        final(mesh).wf(),
        keeps(*old(mesh), *final(mesh)),
        final(mesh).nv() <= old(mesh).nv() + isect.edge_points@.len(),
        forall|v: int|
            old(mesh).nv() <= v < final(mesh).nv() ==> point_places(isect.edge_points@).contains(
                ((#[trigger] final(mesh).vertices@[v]).position, final(mesh).vertices@[v].uv),
            ),
        old(mesh).roomy() && first_point_on_edge(face_corners(*old(mesh), face.0 as int), *isect) ==> final(mesh).nv()
            > old(mesh).nv() && final(mesh).vertices@[old(mesh).nv() as int].position == isect.edge_points@[0].2
            && final(mesh).vertices@[old(mesh).nv() as int].uv == isect.edge_points@[0].3,
        meets_along_edges(*old(mesh), *isect) ==> *final(mesh) == *old(mesh),
        euler_characteristic(*final(mesh)) == euler_characteristic(*old(mesh)),
        first_chord_to_add(*old(mesh), face.0 as int, *isect) ==> final(mesh).nf() > old(mesh).nf()
            && final(mesh).half_edges@[old(mesh).nh()].cut,
        final(mesh).nv() == old(mesh).nv() && final(mesh).nf() == old(mesh).nf() ==> *final(mesh) == *old(mesh),
{
    let ghost m0 = *mesh;
    let ghost along = meets_along_edges(m0, *isect);
    let ghost chord = first_chord_to_add(m0, face.0 as int, *isect);
    let ghost hyp = m0.roomy() && first_point_on_edge(face_corners(m0, face.0 as int), *isect);
    proof {
        lemma_keeps_refl(m0);
    }
    let mut cut_verts: Vec<VertexId> = Vec::new();
    let mut i: usize = 0;
    while i < isect.edge_points.len()
        invariant
            mesh.wf(),
            m0 == *old(mesh),
            keeps(m0, *mesh),
            euler_characteristic(*mesh) == euler_characteristic(m0),
            face.0 < mesh.nf(),
            mesh.faces@[face.0 as int].valid,
            i <= isect.edge_points@.len(),
            i == 0 ==> *mesh == m0,
            mesh.nv() <= m0.nv() + i,
            hyp == (m0.roomy() && first_point_on_edge(face_corners(m0, face.0 as int), *isect)),
            new_vertices_from(m0, *mesh, isect.edge_points@, i > 0 && hyp),
            cut_verts@.len() <= i,
            *mesh == m0 || mesh.nv() > m0.nv(),
        decreases isect.edge_points@.len() - i,
    {
        let (va, vb, pos, uv) = isect.edge_points[i];
        if !mesh.has_room() {
            return;
        }
        let found = find_half_edge_on_face(mesh, face, VertexId(va), VertexId(vb));
        proof {
            if i == 0 && hyp {
                lemma_corner_edge(m0, face.0 as int, *isect);
            }
        }
        if let Some(he) = found {
            let ghost before = *mesh;
            let v = mesh.split_edge(he, pos, uv);
            proof {
                lemma_keeps_split_edge(before, *mesh, he.0 as int, v, pos, uv);
                lemma_split_edge_keeps_euler(before, *mesh, he.0 as int, v, pos, uv);
                lemma_keeps_trans(m0, before, *mesh);
                assert(mesh.vertices@[before.nv() as int].position == pos);
                assert(point_places(isect.edge_points@)[i as int] == (pos, uv));
                assert forall|w: int| m0.nv() <= w < mesh.nv() implies point_places(isect.edge_points@).contains(
                    ((#[trigger] mesh.vertices@[w]).position, mesh.vertices@[w].uv)) by {
                    if w < before.nv() {
                        assert(mesh.vertices@[w] == before.vertices@[w]);
                    } else {
                        assert(w == before.nv());
                        assert(point_places(isect.edge_points@)[i as int] == (mesh.vertices@[w].position, mesh.vertices@[w].uv));
                    }
                }
                if i > 0 && hyp {
                    assert(mesh.vertices@[m0.nv() as int] == before.vertices@[m0.nv() as int]);
                }
            }
            cut_verts.push(v);
        } else {
            proof {
                if i == 0 && hyp {
                    assert(false);
                }
            }
        }
        i = i + 1;
    }
    let ghost mid = *mesh;
    let mut k: usize = 0;
    while k < isect.on_line_vertices.len()
        invariant
            k <= isect.on_line_vertices@.len(),
            new_vertices_from(m0, *mesh, isect.edge_points@, hyp),
            *mesh == mid,
            mid == m0 || mid.nv() > m0.nv(),
            along == meets_along_edges(m0, *isect),
            isect.edge_points@.len() == 0 ==> *mesh == m0 && cut_verts@ == Seq::new(k as nat, |j: int| VertexId(isect.on_line_vertices@[j])),
            mesh.wf(),
            m0 == *old(mesh),
            keeps(m0, *mesh),
            euler_characteristic(*mesh) == euler_characteristic(m0),
            face.0 < mesh.nf(),
            mesh.faces@[face.0 as int].valid,
            hyp == (m0.roomy() && first_point_on_edge(face_corners(m0, face.0 as int), *isect)),
        decreases isect.on_line_vertices@.len() - k,
    {
        cut_verts.push(VertexId(isect.on_line_vertices[k]));
        proof {
            if isect.edge_points@.len() == 0 {
                assert(cut_verts@ =~= Seq::new((k + 1) as nat, |j: int| VertexId(isect.on_line_vertices@[j])));
            }
        }
        k = k + 1;
    }
    proof {
        if isect.edge_points@.len() == 0 {
            assert(cut_verts@ =~= Seq::new(isect.on_line_vertices@.len(), |j: int| VertexId(isect.on_line_vertices@[j])));
            assert(cut_verts@ =~= on_line_ids(*isect));
        }
        if chord {
            assert(verts_on_walk(m0, m0.face_walk(face.0 as int), on_line_ids(*isect)).len() >= 2);
        }
    }
    if cut_verts.len() < 2 {
        return;
    }
    let ordered = order_verts_on_face(mesh, face, cut_verts.as_slice());
    proof {
        lemma_verts_on_walk_in(*mesh, mesh.face_walk(face.0 as int), cut_verts@);
        if chord {
            assert(*mesh == m0);
            assert(cut_verts@ == on_line_ids(*isect));
            assert(ordered@ == verts_on_walk(m0, m0.face_walk(face.0 as int), on_line_ids(*isect)));
        }
    }
    if ordered.len() < 2 {
        return;
    }
    let n = ordered.len();
    let mut produced: Vec<FaceId> = Vec::new();
    let mut split_happened = false;
    let mut i: usize = 0;
    while i < n
        invariant
            mesh.wf(),
            m0 == *old(mesh),
            keeps(m0, *mesh),
            euler_characteristic(*mesh) == euler_characteristic(m0),
            mesh.vertices@ == mid.vertices@,
            new_vertices_from(m0, *mesh, isect.edge_points@, hyp),
            hyp == (m0.roomy() && first_point_on_edge(face_corners(m0, face.0 as int), *isect)),
            face.0 < mesh.nf(),
            mesh.faces@[face.0 as int].valid,
            n == ordered@.len(),
            forall|j: int| 0 <= j < n ==> (#[trigger] ordered@[j]).0 < mesh.nv(),
            forall|j: int| 0 <= j < produced@.len() ==> (#[trigger] produced@[j]).0 < mesh.nf() && mesh.faces@[produced@[j].0 as int].valid,
            split_happened <==> produced@.len() > 0,
            i <= n,
            along == meets_along_edges(m0, *isect),
            along ==> *mesh == m0 && !split_happened,
            along ==> cut_verts@ == Seq::new(isect.on_line_vertices@.len(), |j: int| VertexId(isect.on_line_vertices@[j])),
            forall|q: int| 0 <= q < n ==> cut_verts@.contains(#[trigger] ordered@[q]),
            chord == first_chord_to_add(m0, face.0 as int, *isect),
            chord && i == 0 ==> *mesh == m0 && ordered@ == verts_on_walk(m0, m0.face_walk(face.0 as int), on_line_ids(*isect)),
            chord && i > 0 ==> mesh.nf() > m0.nf() && mesh.nh() > m0.nh() && mesh.half_edges@[m0.nh()].cut,
            *mesh == m0 || mesh.nv() > m0.nv() || mesh.nf() > m0.nf(),
        decreases n - i,
    {
        let a = ordered[i];
        let b = ordered[(i + 1) % n];
        proof {
            if chord && i == 0 {
                vstd::arithmetic::div_mod::lemma_small_mod(1nat, n as nat);
                assert(b == ordered@[1]);
            }
            if along && a != b {
                assert(cut_verts@.contains(ordered@[i as int]));
                assert(cut_verts@.contains(ordered@[(i as int + 1) % (n as int)]));
                let ka = choose|ka: int| 0 <= ka < cut_verts@.len() && cut_verts@[ka] == a;
                let kb = choose|kb: int| 0 <= kb < cut_verts@.len() && cut_verts@[kb] == b;
                let on = isect.on_line_vertices@;
                assert(a == VertexId(on[ka]));
                assert(b == VertexId(on[kb]));
                assert(m0.connected(VertexId(on[ka]), VertexId(on[kb])));
            }
        }
        if a == b || are_adjacent(mesh, a, b) {
            i = i + 1;
            continue;
        }
        if !mesh.has_room() {
            return;
        }
        let ghost before = *mesh;
        let nf = mesh.split_face(face, a, b, true);
        if nf != face {
            proof {
                lemma_keeps_split_face(before, *mesh, face.0 as int, a, b, true);
                lemma_split_face_keeps_euler(before, *mesh, face.0 as int, a, b, true);
                lemma_keeps_trans(m0, before, *mesh);
                assert forall|j: int| 0 <= j < produced@.len() implies (#[trigger] produced@[j]).0 < mesh.nf() && mesh.faces@[produced@[j].0 as int].valid by {
                    assert(before.faces@[produced@[j].0 as int].valid);
                }
            }
            produced.push(nf);
            split_happened = true;
        }
        i = i + 1;
    }
    if split_happened {
        produced.push(face);
        let mut j: usize = 0;
        while j < produced.len()
            invariant
                mesh.wf(),
                keeps(m0, *mesh),
                euler_characteristic(*mesh) == euler_characteristic(m0),
                mesh.vertices@ == mid.vertices@,
                new_vertices_from(m0, *mesh, isect.edge_points@, hyp),
                hyp == (m0.roomy() && first_point_on_edge(face_corners(m0, face.0 as int), *isect)),
                chord ==> mesh.nf() > m0.nf() && mesh.nh() > m0.nh() && mesh.half_edges@[m0.nh()].cut,
                forall|q: int| 0 <= q < produced@.len() ==> (#[trigger] produced@[q]).0 < mesh.nf() && mesh.faces@[produced@[q].0 as int].valid,
                j <= produced@.len(),
                *mesh == m0 || mesh.nv() > m0.nv() || mesh.nf() > m0.nf(),
            decreases produced@.len() - j,
        {
            let f = produced[j];
            if mesh.face_half_edges(f).len() > 3 {
                let ghost before = *mesh;
                triangulate_face(mesh, f);
                proof {
                    lemma_keeps_trans(m0, before, *mesh);
                    assert forall|q: int| 0 <= q < produced@.len() implies (#[trigger] produced@[q]).0 < mesh.nf() && mesh.faces@[produced@[q].0 as int].valid by {
                        assert(before.faces@[produced@[q].0 as int].valid);
                    }
                }
            }
            j = j + 1;
        }
    }
}

/// Cuts `face` along a curve whose meeting with a face `intersects` computes
/// from the face's corners (see `get_face_uvs`). When the curve crosses the
/// face's edges, a face with more than three corners is first triangulated;
/// the curve's meeting with what is then `face` decides the cut (see
/// `cut_face_by_intersection`). Returns whether a cut was made: always when
/// every answer of `intersects` is a meeting, never (with the mesh
/// unchanged) when none is; no vertex is added when no cut is made, and a
/// triangle whose first meeting point lies on one of its edges gets a new
/// vertex there. A face whose meeting is a chord between two of its corners
/// not yet joined (see `first_chord_to_add`) is split along a cut diagonal,
/// whatever its number of corners; a face with more than three corners that
/// the curve crosses through its edges is triangulated when its first
/// diagonal can be added (see `fan_step_allowed`), whether or not the curve
/// then meets the triangle left in its place.
pub fn cut_face_local<F: Fn(&Vec<(usize, glam::Vec2, glam::Vec3)>) -> Option<TriangleIntersection>>(
    mesh: &mut HalfEdgeMesh,
    face: FaceId,
    intersects: &F,
) -> (r: bool)
    requires
        old(mesh).wf(),
        face.0 < old(mesh).nf(),
        old(mesh).faces@[face.0 as int].valid,
        forall|c: &Vec<(usize, glam::Vec2, glam::Vec3)>| #[trigger] intersects.requires((c,)),
    ensures
        final(mesh).wf(),
        keeps(*old(mesh), *final(mesh)),
        (forall|c: &Vec<(usize, glam::Vec2, glam::Vec3)>, o: Option<TriangleIntersection>|
            c@ == face_corners(*old(mesh), face.0 as int) && #[trigger] intersects.ensures((c,), o) ==> o is None) ==> !r
            && *final(mesh) == *old(mesh),
        (forall|c: &Vec<(usize, glam::Vec2, glam::Vec3)>, o: Option<TriangleIntersection>| #[trigger] intersects.ensures((c,), o)
            ==> o is Some) ==> r,
        !r ==> final(mesh).vertices@ == old(mesh).vertices@,
        face_corners(*old(mesh), face.0 as int).len() <= 3 && old(mesh).roomy() && (forall|
            c: &Vec<(usize, glam::Vec2, glam::Vec3)>,
            o: Option<TriangleIntersection>,
        |
            c@ == face_corners(*old(mesh), face.0 as int) && #[trigger] intersects.ensures((c,), o) ==> (o matches Some(x)
                && first_point_on_edge(c@, x))) ==> r && final(mesh).nv() > old(mesh).nv(),
        room_for_triangulation(*old(mesh)) && (forall|c: &Vec<(usize, glam::Vec2, glam::Vec3)>, o: Option<TriangleIntersection>|
            c@.len() > 0 && #[trigger] intersects.ensures((c,), o) ==> (o matches Some(x) && first_point_on_edge(c@, x))) ==> r
            && final(mesh).nv() > old(mesh).nv(),
        (forall|c: &Vec<(usize, glam::Vec2, glam::Vec3)>, o: Option<TriangleIntersection>|
            c@ == face_corners(*old(mesh), face.0 as int) && #[trigger] intersects.ensures((c,), o) ==> (o matches Some(x)
                ==> meets_along_edges(*old(mesh), x))) ==> *final(mesh) == *old(mesh),
        (forall|c: &Vec<(usize, glam::Vec2, glam::Vec3)>, o: Option<TriangleIntersection>|
            c@ == face_corners(*old(mesh), face.0 as int) && #[trigger] intersects.ensures((c,), o) ==> (o matches Some(x)
                && first_chord_to_add(*old(mesh), face.0 as int, x))) ==> r && final(mesh).nf() > old(mesh).nf()
            && final(mesh).half_edges@[old(mesh).nh() as int].cut,
        fan_step_allowed(*old(mesh), face.0 as int) && (forall|
            c: &Vec<(usize, glam::Vec2, glam::Vec3)>,
            o: Option<TriangleIntersection>,
        |
            c@ == face_corners(*old(mesh), face.0 as int) && #[trigger] intersects.ensures((c,), o) ==> (o matches Some(x)
                && x.edge_points@.len() > 0)) ==> final(mesh).nf() > old(mesh).nf(),
        final(mesh).nv() == old(mesh).nv() && final(mesh).nf() == old(mesh).nf() ==> *final(mesh) == *old(mesh),
        euler_characteristic(*final(mesh)) == euler_characteristic(*old(mesh)),
{
    let ghost m0 = *mesh;
    proof {
        lemma_keeps_refl(m0);
    }
    let face_verts = get_face_uvs(mesh, face);
    let first = intersects(&face_verts);
    match first {
        None => {
            return false;
        },
        Some(isect) => {
            if isect.edge_points.len() > 0 {
                if mesh.face_half_edges(face).len() > 3 {
                    triangulate_face(mesh, face);
                }
            }
        },
    }
    let face_verts2 = get_face_uvs(mesh, face);
    proof {
        mesh.lemma_face_walk_ok(face.0 as int);
        assert(face_verts2@.len() > 0);
    }
    match intersects(&face_verts2) {
        Some(isect) => {
            let ghost before = *mesh;
            cut_face_by_intersection(mesh, face, &isect);
            proof {
                lemma_keeps_trans(m0, before, *mesh);
            }
            true
        },
        None => false,
    }
}

/// `m` has room for a triangulation (see `triangulate_face`, which adds at
/// most 4096 * 4096 diagonals) and one more editing step.
pub open spec fn room_for_triangulation(m: HalfEdgeMesh) -> bool {
    &&& m.nv() < size_limit()
    &&& m.nh() + 2 * 4096 * 4096 < size_limit()
    &&& m.nf() + 4096 * 4096 < size_limit()
}

/// Every meeting that `intersect` reports for line `index` of the `u`
/// (`is_u`) or `v` family runs along edges of `m` (see
/// `meets_along_edges`): the line follows the mesh's edges.
pub open spec fn line_along_edges<F: Fn(bool, usize, &Vec<(usize, glam::Vec2, glam::Vec3)>) -> Option<TriangleIntersection>>(
    m: HalfEdgeMesh,
    intersect: &F,
    is_u: bool,
    index: usize,
) -> bool {
    forall|c: &Vec<(usize, glam::Vec2, glam::Vec3)>, o: Option<TriangleIntersection>|
        #[trigger] intersect.ensures((is_u, index, c), o) ==> (o matches Some(x) ==> meets_along_edges(m, x))
}

/// Line `index` of the `u` (`is_u`) or `v` family crosses face `f` of `m`
/// with its first point on an edge of the face: `f` is a triangle every
/// answer for whose corners does so, in a mesh with room; or every answer
/// of the line for any corners does so, in a mesh with room for a
/// triangulation first (see `cut_face_local`).
pub open spec fn line_crosses_face<F: Fn(bool, usize, &Vec<(usize, glam::Vec2, glam::Vec3)>) -> Option<TriangleIntersection>>(
    m: HalfEdgeMesh,
    intersect: &F,
    is_u: bool,
    index: usize,
    f: int,
) -> bool {
    ||| face_corners(m, f).len() <= 3 && m.roomy() && forall|c: &Vec<(usize, glam::Vec2, glam::Vec3)>, o: Option<TriangleIntersection>|
        c@ == face_corners(m, f) && #[trigger] intersect.ensures((is_u, index, c), o) ==> (o matches Some(x)
            && first_point_on_edge(c@, x))
    ||| room_for_triangulation(m) && forall|c: &Vec<(usize, glam::Vec2, glam::Vec3)>, o: Option<TriangleIntersection>|
        c@.len() > 0 && #[trigger] intersect.ensures((is_u, index, c), o) ==> (o matches Some(x) && first_point_on_edge(c@, x))
}

/// `f` is the first valid face of `m`, in index order, that line `index`
/// of the `u` (`is_u`) or `v` family meets: the line misses every valid
/// face before it and crosses `f` on an edge (see `line_crosses_face`).
pub open spec fn first_crossed_face<F: Fn(bool, usize, &Vec<(usize, glam::Vec2, glam::Vec3)>) -> Option<TriangleIntersection>>(
    m: HalfEdgeMesh,
    intersect: &F,
    is_u: bool,
    index: usize,
    f: int,
) -> bool {
    &&& 0 <= f < m.nf()
    &&& m.faces@[f].valid
    &&& forall|g: int, c: &Vec<(usize, glam::Vec2, glam::Vec3)>, o: Option<TriangleIntersection>|
        #![trigger m.faces@[g], intersect.ensures((is_u, index, c), o)]
        0 <= g < f && m.faces@[g].valid && c@ == face_corners(m, g) && intersect.ensures((is_u, index, c), o) ==> o is None
    &&& line_crosses_face(m, intersect, is_u, index, f)
}

/// `f` is the first valid face of `m`, in index order, that line `index`
/// of the `u` (`is_u`) or `v` family meets, and the meeting splits it (see
/// `line_splits_face`).
pub open spec fn first_split_face<F: Fn(bool, usize, &Vec<(usize, glam::Vec2, glam::Vec3)>) -> Option<TriangleIntersection>>(
    m: HalfEdgeMesh,
    intersect: &F,
    is_u: bool,
    index: usize,
    f: int,
) -> bool {
    &&& 0 <= f < m.nf()
    &&& m.faces@[f].valid
    &&& forall|g: int, c: &Vec<(usize, glam::Vec2, glam::Vec3)>, o: Option<TriangleIntersection>|
        #![trigger m.faces@[g], intersect.ensures((is_u, index, c), o)]
        0 <= g < f && m.faces@[g].valid && c@ == face_corners(m, g) && intersect.ensures((is_u, index, c), o) ==> o is None
    &&& line_splits_face(m, intersect, is_u, index, f)
}

/// Line `index` of the `u` (`is_u`) or `v` family meets face `f` of `m` in
/// a way that splits it: every answer for the face's corners is a chord
/// between two of its corners not yet joined (see `first_chord_to_add`), or
/// crosses its edges while the face's first diagonal can be added (see
/// `fan_step_allowed`).
pub open spec fn line_splits_face<F: Fn(bool, usize, &Vec<(usize, glam::Vec2, glam::Vec3)>) -> Option<TriangleIntersection>>(
    m: HalfEdgeMesh,
    intersect: &F,
    is_u: bool,
    index: usize,
    f: int,
) -> bool {
    ||| forall|c: &Vec<(usize, glam::Vec2, glam::Vec3)>, o: Option<TriangleIntersection>|
        c@ == face_corners(m, f) && #[trigger] intersect.ensures((is_u, index, c), o) ==> (o matches Some(x)
            && first_chord_to_add(m, f, x))
    ||| fan_step_allowed(m, f) && forall|c: &Vec<(usize, glam::Vec2, glam::Vec3)>, o: Option<TriangleIntersection>|
        c@ == face_corners(m, f) && #[trigger] intersect.ensures((is_u, index, c), o) ==> (o matches Some(x)
            && x.edge_points@.len() > 0)
}

/// Every line runs along edges of `m` (see `line_along_edges`).
pub open spec fn lines_along_edges<F: Fn(bool, usize, &Vec<(usize, glam::Vec2, glam::Vec3)>) -> Option<TriangleIntersection>>(
    m: HalfEdgeMesh,
    intersect: &F,
) -> bool {
    forall|u: bool, i: usize| #[trigger] line_along_edges(m, intersect, u, i)
}

/// Every answer of `intersect` for line `index` of the `u` (`is_u`) or `v`
/// family and a valid face of `m` puts the first point where the line meets
/// the face on an edge of the face (see `first_point_on_edge`), every valid
/// face of `m` is a triangle, some face is valid, and `m` has room to grow.
pub open spec fn line_meets_triangles<F: Fn(bool, usize, &Vec<(usize, glam::Vec2, glam::Vec3)>) -> Option<TriangleIntersection>>(
    m: HalfEdgeMesh,
    intersect: &F,
    is_u: bool,
    index: usize,
) -> bool {
    &&& m.roomy()
    &&& exists|f: int| 0 <= f < m.nf() && #[trigger] m.faces@[f].valid
    &&& forall|f: int| 0 <= f < m.nf() && #[trigger] m.faces@[f].valid ==> face_corners(m, f).len() <= 3
    &&& forall|f: int, c: &Vec<(usize, glam::Vec2, glam::Vec3)>, o: Option<TriangleIntersection>|
        #![trigger m.faces@[f], intersect.ensures((is_u, index, c), o)]
        0 <= f < m.nf() && m.faces@[f].valid && c@ == face_corners(m, f) && intersect.ensures((is_u, index, c), o) ==> (
        o matches Some(x) && first_point_on_edge(c@, x))
}

/// Every line meets the triangles of `m` on their edges (see
/// `line_meets_triangles`).
pub open spec fn lines_meet_triangles<F: Fn(bool, usize, &Vec<(usize, glam::Vec2, glam::Vec3)>) -> Option<TriangleIntersection>>(
    m: HalfEdgeMesh,
    intersect: &F,
) -> bool {
    forall|u: bool, i: usize| #[trigger] line_meets_triangles(m, intersect, u, i)
}

/// Cuts every face of the mesh that existed when the call began, and is
/// still valid when its turn comes, along cut line `index` of the `u`
/// (`is_u`) or `v` family, whose meeting with a face `intersect` computes.
/// Returns the number of faces cut: every valid face when the line meets
/// them all, none (with the mesh unchanged) when it meets none. A line that
/// runs along the mesh's edges leaves the mesh as it is. When the first
/// valid face the line meets is crossed with its first point on an edge
/// (see `first_crossed_face`), vertices are added; when the meeting splits it
/// (see `first_split_face`), faces are.
pub fn cut_mesh_by_line<F: Fn(bool, usize, &Vec<(usize, glam::Vec2, glam::Vec3)>) -> Option<TriangleIntersection>>(
    mesh: &mut HalfEdgeMesh,
    is_u: bool,
    index: usize,
    intersect: &F,
) -> (cuts: usize)
    requires
        old(mesh).wf(),
        forall|u: bool, i: usize, c: &Vec<(usize, glam::Vec2, glam::Vec3)>| #[trigger] intersect.requires((u, i, c)),
    ensures
        final(mesh).wf(),
        keeps(*old(mesh), *final(mesh)),
        cuts <= old(mesh).nf(),
        cuts <= old(mesh).valid_face_count(),
        (forall|u: bool, i: usize, c: &Vec<(usize, glam::Vec2, glam::Vec3)>, o: Option<TriangleIntersection>|
            #[trigger] intersect.ensures((u, i, c), o) ==> o is None) ==> cuts == 0 && *final(mesh) == *old(mesh),
        (forall|u: bool, i: usize, c: &Vec<(usize, glam::Vec2, glam::Vec3)>, o: Option<TriangleIntersection>|
            #[trigger] intersect.ensures((u, i, c), o) ==> o is Some) ==> cuts == old(mesh).valid_face_count(),
        line_meets_triangles(*old(mesh), intersect, is_u, index) ==> final(mesh).nv() > old(mesh).nv(),
        line_along_edges(*old(mesh), intersect, is_u, index) ==> *final(mesh) == *old(mesh),
        (exists|f: int| #[trigger] first_crossed_face(*old(mesh), intersect, is_u, index, f)) ==> final(mesh).nv()
            > old(mesh).nv(),
        (exists|f: int| #[trigger] first_split_face(*old(mesh), intersect, is_u, index, f)) ==> final(mesh).nf()
            > old(mesh).nf(),
        final(mesh).nv() == old(mesh).nv() && final(mesh).nf() == old(mesh).nf() ==> *final(mesh) == *old(mesh),
        *final(mesh) == *old(mesh) ==> forall|f: int|
            0 <= f < old(mesh).nf() && #[trigger] old(mesh).faces@[f].valid ==> !line_crosses_face(
                *old(mesh),
                intersect,
                is_u,
                index,
                f,
            ) && !line_splits_face(*old(mesh), intersect, is_u, index, f),
        euler_characteristic(*final(mesh)) == euler_characteristic(*old(mesh)),
{
    let ghost m0 = *mesh;
    let ghost along = line_along_edges(m0, intersect, is_u, index);
    let ghost none_all = forall|u: bool, i: usize, c: &Vec<(usize, glam::Vec2, glam::Vec3)>, o: Option<TriangleIntersection>|
        #[trigger] intersect.ensures((u, i, c), o) ==> o is None;
    let ghost some_all = forall|u: bool, i: usize, c: &Vec<(usize, glam::Vec2, glam::Vec3)>, o: Option<TriangleIntersection>|
        #[trigger] intersect.ensures((u, i, c), o) ==> o is Some;
    let ghost tri = line_meets_triangles(m0, intersect, is_u, index);
    let ghost first = exists|f: int| #[trigger] first_crossed_face(m0, intersect, is_u, index, f);
    let ghost fstar = choose|f: int| #[trigger] first_crossed_face(m0, intersect, is_u, index, f);
    let ghost chord = exists|f: int| #[trigger] first_split_face(m0, intersect, is_u, index, f);
    let ghost fchord = choose|f: int| #[trigger] first_split_face(m0, intersect, is_u, index, f);
    proof {
        lemma_keeps_refl(m0);
    }
    let f = |fv: &Vec<(usize, glam::Vec2, glam::Vec3)>| -> (r: Option<TriangleIntersection>)
        requires
            intersect.requires((is_u, index, fv)),
        ensures
            intersect.ensures((is_u, index, fv), r),
        { intersect(is_u, index, fv) };
    proof {
        assert forall|c: &Vec<(usize, glam::Vec2, glam::Vec3)>| #[trigger] f.requires((c,)) by {
            assert(intersect.requires((is_u, index, c)));
        }
    }
    let initial_face_count = mesh.faces.len();
    let mut cut_count: usize = 0;
    let mut face_idx: usize = 0;
    while face_idx < initial_face_count
        invariant
            mesh.wf(),
            keeps(m0, *mesh),
            euler_characteristic(*mesh) == euler_characteristic(m0),
            initial_face_count == m0.nf(),
            face_idx <= initial_face_count,
            cut_count <= m0.faces@.take(face_idx as int).filter(|x: HEFace| x.valid).len(),
            forall|c: &Vec<(usize, glam::Vec2, glam::Vec3)>| #[trigger] f.requires((c,)),
            forall|c: &Vec<(usize, glam::Vec2, glam::Vec3)>, o: Option<TriangleIntersection>|
                #[trigger] f.ensures((c,), o) ==> intersect.ensures((is_u, index, c), o),
            none_all == (forall|u: bool, i: usize, c: &Vec<(usize, glam::Vec2, glam::Vec3)>, o: Option<TriangleIntersection>|
                #[trigger] intersect.ensures((u, i, c), o) ==> o is None),
            some_all == (forall|u: bool, i: usize, c: &Vec<(usize, glam::Vec2, glam::Vec3)>, o: Option<TriangleIntersection>|
                #[trigger] intersect.ensures((u, i, c), o) ==> o is Some),
            tri == line_meets_triangles(m0, intersect, is_u, index),
            along == line_along_edges(m0, intersect, is_u, index),
            along ==> *mesh == m0,
            none_all ==> cut_count == 0 && *mesh == m0,
            some_all ==> cut_count == m0.faces@.take(face_idx as int).filter(|x: HEFace| x.valid).len(),
            tri ==> mesh.nv() > m0.nv() || (*mesh == m0 && forall|g: int| 0 <= g < face_idx ==> !(#[trigger] m0.faces@[g]).valid),
            first ==> first_crossed_face(m0, intersect, is_u, index, fstar),
            first ==> mesh.nv() > m0.nv() || (*mesh == m0 && face_idx <= fstar),
            chord ==> first_split_face(m0, intersect, is_u, index, fchord),
            chord ==> mesh.nf() > m0.nf() || (*mesh == m0 && face_idx <= fchord),
            *mesh == m0 || mesh.nv() > m0.nv() || mesh.nf() > m0.nf(),
            *mesh == m0 ==> forall|g: int|
                0 <= g < face_idx && #[trigger] m0.faces@[g].valid ==> !line_crosses_face(m0, intersect, is_u, index, g)
                    && !line_splits_face(m0, intersect, is_u, index, g),
        decreases initial_face_count - face_idx,
    {
        proof {
            let s1 = m0.faces@.take(face_idx as int + 1);
            assert(s1.drop_last() =~= m0.faces@.take(face_idx as int));
            reveal(Seq::filter);
            assert(s1.last() == m0.faces@[face_idx as int]);
            assert(mesh.faces@[face_idx as int].valid == m0.faces@[face_idx as int].valid);
        }
        if mesh.faces[face_idx].valid {
            let ghost before = *mesh;
            proof {
                if tri && *mesh == m0 {
                    assert(m0.faces@[face_idx as int].valid);
                    assert(face_corners(m0, face_idx as int).len() <= 3);
                }
                if first && *mesh == m0 && face_idx < fstar {
                    assert(m0.faces@[face_idx as int].valid);
                    assert forall|c: &Vec<(usize, glam::Vec2, glam::Vec3)>, o: Option<TriangleIntersection>|
                        c@ == face_corners(*mesh, face_idx as int) && #[trigger] f.ensures((c,), o) implies o is None by {
                        assert(intersect.ensures((is_u, index, c), o));
                    }
                }
                if chord && *mesh == m0 && face_idx < fchord {
                    assert(m0.faces@[face_idx as int].valid);
                    assert forall|c: &Vec<(usize, glam::Vec2, glam::Vec3)>, o: Option<TriangleIntersection>|
                        c@ == face_corners(*mesh, face_idx as int) && #[trigger] f.ensures((c,), o) implies o is None by {
                        assert(intersect.ensures((is_u, index, c), o));
                    }
                }
                if chord && *mesh == m0 && face_idx == fchord {
                    if forall|c: &Vec<(usize, glam::Vec2, glam::Vec3)>, o: Option<TriangleIntersection>|
                        c@ == face_corners(m0, fchord) && #[trigger] intersect.ensures((is_u, index, c), o) ==> (o matches Some(
                            x,
                        ) && first_chord_to_add(m0, fchord, x)) {
                        assert forall|c: &Vec<(usize, glam::Vec2, glam::Vec3)>, o: Option<TriangleIntersection>|
                            c@ == face_corners(*mesh, face_idx as int) && #[trigger] f.ensures((c,), o) implies (o matches Some(
                            x,
                        ) && first_chord_to_add(*mesh, face_idx as int, x)) by {
                            assert(intersect.ensures((is_u, index, c), o));
                        }
                    } else {
                        assert forall|c: &Vec<(usize, glam::Vec2, glam::Vec3)>, o: Option<TriangleIntersection>|
                            c@ == face_corners(*mesh, face_idx as int) && #[trigger] f.ensures((c,), o) implies (o matches Some(
                            x,
                        ) && x.edge_points@.len() > 0) by {
                            assert(intersect.ensures((is_u, index, c), o));
                        }
                    }
                }
                if first && *mesh == m0 && face_idx == fstar {
                    if face_corners(m0, fstar).len() <= 3 && m0.roomy() && forall|
                        c: &Vec<(usize, glam::Vec2, glam::Vec3)>,
                        o: Option<TriangleIntersection>,
                    |
                        c@ == face_corners(m0, fstar) && #[trigger] intersect.ensures((is_u, index, c), o) ==> (o matches Some(x)
                            && first_point_on_edge(c@, x)) {
                        assert forall|c: &Vec<(usize, glam::Vec2, glam::Vec3)>, o: Option<TriangleIntersection>|
                            c@ == face_corners(*mesh, face_idx as int) && #[trigger] f.ensures((c,), o) implies (o matches Some(
                            x,
                        ) && first_point_on_edge(c@, x)) by {
                            assert(intersect.ensures((is_u, index, c), o));
                        }
                    } else {
                        assert forall|c: &Vec<(usize, glam::Vec2, glam::Vec3)>, o: Option<TriangleIntersection>|
                            c@.len() > 0 && #[trigger] f.ensures((c,), o) implies (o matches Some(x) && first_point_on_edge(
                            c@,
                            x,
                        )) by {
                            assert(intersect.ensures((is_u, index, c), o));
                        }
                    }
                }
            }
            proof {
                let g = face_idx as int;
                if *mesh == m0 && line_crosses_face(m0, intersect, is_u, index, g) {
                    if face_corners(m0, g).len() <= 3 && m0.roomy() && forall|
                        c: &Vec<(usize, glam::Vec2, glam::Vec3)>,
                        o: Option<TriangleIntersection>,
                    |
                        c@ == face_corners(m0, g) && #[trigger] intersect.ensures((is_u, index, c), o) ==> (o matches Some(x)
                            && first_point_on_edge(c@, x)) {
                        assert forall|c: &Vec<(usize, glam::Vec2, glam::Vec3)>, o: Option<TriangleIntersection>|
                            c@ == face_corners(*mesh, g) && #[trigger] f.ensures((c,), o) implies (o matches Some(x)
                            && first_point_on_edge(c@, x)) by {
                            assert(intersect.ensures((is_u, index, c), o));
                        }
                    } else {
                        assert forall|c: &Vec<(usize, glam::Vec2, glam::Vec3)>, o: Option<TriangleIntersection>|
                            c@.len() > 0 && #[trigger] f.ensures((c,), o) implies (o matches Some(x) && first_point_on_edge(
                            c@,
                            x,
                        )) by {
                            assert(intersect.ensures((is_u, index, c), o));
                        }
                    }
                }
                if *mesh == m0 && line_splits_face(m0, intersect, is_u, index, g) {
                    if forall|c: &Vec<(usize, glam::Vec2, glam::Vec3)>, o: Option<TriangleIntersection>|
                        c@ == face_corners(m0, g) && #[trigger] intersect.ensures((is_u, index, c), o) ==> (o matches Some(x)
                            && first_chord_to_add(m0, g, x)) {
                        assert forall|c: &Vec<(usize, glam::Vec2, glam::Vec3)>, o: Option<TriangleIntersection>|
                            c@ == face_corners(*mesh, g) && #[trigger] f.ensures((c,), o) implies (o matches Some(x)
                            && first_chord_to_add(*mesh, g, x)) by {
                            assert(intersect.ensures((is_u, index, c), o));
                        }
                    } else {
                        assert forall|c: &Vec<(usize, glam::Vec2, glam::Vec3)>, o: Option<TriangleIntersection>|
                            c@ == face_corners(*mesh, g) && #[trigger] f.ensures((c,), o) implies (o matches Some(x)
                            && x.edge_points@.len() > 0) by {
                            assert(intersect.ensures((is_u, index, c), o));
                        }
                    }
                }
            }
            if cut_face_local(mesh, FaceId(face_idx), &f) {
                cut_count = cut_count + 1;
            }
            proof {
                lemma_keeps_trans(m0, before, *mesh);
            }
        }
        face_idx = face_idx + 1;
    }
    proof {
        assert(m0.faces@.take(m0.nf() as int) =~= m0.faces@);
        if tri {
            let g = choose|g: int| 0 <= g < m0.nf() && #[trigger] m0.faces@[g].valid;
            assert(m0.faces@[g].valid);
        }
    }
    cut_count
}

/// Line `j` of the `u` (`is_u`) or `v` family is among the lines cut, it
/// crosses some valid face of `m` (see `first_crossed_face`), and every
/// line cut before it (the `u` lines first, each family in index order)
/// runs along edges of `m` (see `line_along_edges`).
pub open spec fn first_line_crosses<F: Fn(bool, usize, &Vec<(usize, glam::Vec2, glam::Vec3)>) -> Option<TriangleIntersection>>(
    m: HalfEdgeMesh,
    intersect: &F,
    num_u: usize,
    num_v: usize,
    is_u: bool,
    j: usize,
) -> bool {
    &&& if is_u {
        j < num_u
    } else {
        j < num_v
    }
    &&& exists|f: int| #[trigger] first_crossed_face(m, intersect, is_u, j, f)
    &&& forall|u2: bool, j2: usize|
        (u2 && !is_u && j2 < num_u) || (u2 == is_u && j2 < j) ==> #[trigger] line_along_edges(m, intersect, u2, j2)
}

/// Line `j` of the `u` (`is_u`) or `v` family is among the lines cut, the
/// first valid face of `m` it meets is split by the meeting (see
/// `first_split_face`), and every line cut before it runs along edges of
/// `m` (see `line_along_edges`).
pub open spec fn first_line_splits<F: Fn(bool, usize, &Vec<(usize, glam::Vec2, glam::Vec3)>) -> Option<TriangleIntersection>>(
    m: HalfEdgeMesh,
    intersect: &F,
    num_u: usize,
    num_v: usize,
    is_u: bool,
    j: usize,
) -> bool {
    &&& if is_u {
        j < num_u
    } else {
        j < num_v
    }
    &&& exists|f: int| #[trigger] first_split_face(m, intersect, is_u, j, f)
    &&& forall|u2: bool, j2: usize|
        (u2 && !is_u && j2 < num_u) || (u2 == is_u && j2 < j) ==> #[trigger] line_along_edges(m, intersect, u2, j2)
}

/// What cutting along line `j` of the `u` (`is_u`) or `v` family promises
/// of `m1`, the mesh it leaves, given `m0` (see `cut_mesh_by_line`).
#[verifier::opaque]
pub open spec fn line_cut_result<F: Fn(bool, usize, &Vec<(usize, glam::Vec2, glam::Vec3)>) -> Option<TriangleIntersection>>(
    m0: HalfEdgeMesh,
    m1: HalfEdgeMesh,
    intersect: &F,
    is_u: bool,
    j: usize,
) -> bool {
    &&& m1.wf()
    &&& keeps(m0, m1)
    &&& euler_characteristic(m1) == euler_characteristic(m0)
    &&& line_along_edges(m0, intersect, is_u, j) ==> m1 == m0
    &&& (exists|f: int| #[trigger] first_crossed_face(m0, intersect, is_u, j, f)) ==> m1.nv() > m0.nv()
    &&& (exists|f: int| #[trigger] first_split_face(m0, intersect, is_u, j, f)) ==> m1.nf() > m0.nf()
    &&& m1.nv() == m0.nv() && m1.nf() == m0.nf() ==> m1 == m0
    &&& m1 == m0 ==> forall|f: int|
        0 <= f < m0.nf() && #[trigger] m0.faces@[f].valid ==> !line_crosses_face(m0, intersect, is_u, j, f)
            && !line_splits_face(m0, intersect, is_u, j, f)
}

/// The line cut at step `k` of a round: the `u` lines in index order, then
/// the `v` lines.
pub open spec fn round_line(num_u: usize, k: int) -> (bool, usize) {
    if k < num_u {
        (true, k as usize)
    } else {
        (false, (k - num_u) as usize)
    }
}

/// `ls` holds the meshes a round of the grid cut passes through: `ls[0]`
/// at its start and `ls[k]` after its `k`-th line (see `round_line`),
/// each line cut as `line_cut_result` says.
pub open spec fn round_steps<F: Fn(bool, usize, &Vec<(usize, glam::Vec2, glam::Vec3)>) -> Option<TriangleIntersection>>(
    ls: Seq<HalfEdgeMesh>,
    num_u: usize,
    num_v: usize,
    intersect: &F,
) -> bool {
    &&& ls.len() == num_u + num_v + 1
    &&& forall|k: int|
        #![trigger ls[k]]
        0 < k < ls.len() ==> line_cut_result(
            ls[k - 1],
            ls[k],
            intersect,
            round_line(num_u, k - 1).0,
            round_line(num_u, k - 1).1,
        )
}

/// One round of the grid cut, cutting along every line once, takes `m0` to
/// `m1` (see `round_steps`).
pub open spec fn round_result<F: Fn(bool, usize, &Vec<(usize, glam::Vec2, glam::Vec3)>) -> Option<TriangleIntersection>>(
    m0: HalfEdgeMesh,
    m1: HalfEdgeMesh,
    num_u: usize,
    num_v: usize,
    intersect: &F,
) -> bool {
    exists|ls: Seq<HalfEdgeMesh>| #[trigger] round_steps(ls, num_u, num_v, intersect) && ls[0] == m0 && ls.last() == m1
}

/// `ms` holds the meshes the rounds of a grid cut pass through, from `m0`:
/// each is one round after the one before (see `round_result`); after
/// every round but the last the number of valid faces changed and is at
/// most 150000; the last round is the sixth, left the number of valid
/// faces unchanged, or ended with more than 150000.
pub open spec fn grid_rounds<F: Fn(bool, usize, &Vec<(usize, glam::Vec2, glam::Vec3)>) -> Option<TriangleIntersection>>(
    m0: HalfEdgeMesh,
    ms: Seq<HalfEdgeMesh>,
    num_u: usize,
    num_v: usize,
    intersect: &F,
) -> bool {
    &&& 2 <= ms.len() <= 7
    &&& ms[0] == m0
    &&& forall|r: int| #![trigger ms[r]] 0 < r < ms.len() ==> round_result(ms[r - 1], ms[r], num_u, num_v, intersect)
    &&& forall|r: int|
        #![trigger ms[r]]
        0 < r < ms.len() - 1 ==> ms[r].valid_face_count() != ms[r - 1].valid_face_count() && ms[r].valid_face_count()
            <= 150000
    &&& ms.len() == 7 || ms.last().valid_face_count() == ms[ms.len() - 2].valid_face_count()
        || ms.last().valid_face_count() > 150000
}

/// No line cuts any valid face of `m`: for every line among the `num_u` of
/// the `u` family and the `num_v` of the `v` family and every valid face,
/// the line neither crosses the face (see `line_crosses_face`) nor splits
/// it (see `line_splits_face`).
pub open spec fn no_line_cuts<F: Fn(bool, usize, &Vec<(usize, glam::Vec2, glam::Vec3)>) -> Option<TriangleIntersection>>(
    m: HalfEdgeMesh,
    intersect: &F,
    num_u: usize,
    num_v: usize,
) -> bool {
    forall|u: bool, j: usize, f: int|
        #![trigger line_crosses_face(m, intersect, u, j, f)]
        #![trigger line_splits_face(m, intersect, u, j, f)]
        (if u {
            j < num_u
        } else {
            j < num_v
        }) && 0 <= f < m.nf() && m.faces@[f].valid ==> !line_crosses_face(m, intersect, u, j, f)
            && !line_splits_face(m, intersect, u, j, f)
}

/// Along the steps of a round the counts of vertices and faces never drop.
proof fn lemma_round_counts<F: Fn(bool, usize, &Vec<(usize, glam::Vec2, glam::Vec3)>) -> Option<TriangleIntersection>>(
    ls: Seq<HalfEdgeMesh>,
    num_u: usize,
    num_v: usize,
    intersect: &F,
    i: int,
    j: int,
)
    requires
        round_steps(ls, num_u, num_v, intersect),
        0 <= i <= j < ls.len(),
    ensures
        ls[i].nv() <= ls[j].nv(),
        ls[i].nf() <= ls[j].nf(),
    decreases j - i,
{
    if i < j {
        lemma_round_counts(ls, num_u, num_v, intersect, i, j - 1);
        let _ = ls[j];
        reveal(line_cut_result);
    }
}

/// In a round whose last mesh has as many vertices and faces as its first,
/// every mesh up to step `k` is the first.
proof fn lemma_round_still<F: Fn(bool, usize, &Vec<(usize, glam::Vec2, glam::Vec3)>) -> Option<TriangleIntersection>>(
    ls: Seq<HalfEdgeMesh>,
    num_u: usize,
    num_v: usize,
    intersect: &F,
    k: int,
)
    requires
        round_steps(ls, num_u, num_v, intersect),
        0 <= k < ls.len(),
        ls.last().nv() == ls[0].nv(),
        ls.last().nf() == ls[0].nf(),
    ensures
        forall|i: int| 0 <= i <= k ==> #[trigger] ls[i] == ls[0],
    decreases k,
{
    if k > 0 {
        lemma_round_still(ls, num_u, num_v, intersect, k - 1);
        lemma_round_counts(ls, num_u, num_v, intersect, k, ls.len() - 1);
        let _ = ls[k];
        assert(ls[k - 1] == ls[0]);
        reveal(line_cut_result);
    }
}

/// A round that adds no vertex and no face changes nothing, and then no
/// line cuts any valid face of the mesh (see `no_line_cuts`): the cut has
/// settled.
pub proof fn lemma_quiet_round<F: Fn(bool, usize, &Vec<(usize, glam::Vec2, glam::Vec3)>) -> Option<TriangleIntersection>>(
    m0: HalfEdgeMesh,
    m1: HalfEdgeMesh,
    num_u: usize,
    num_v: usize,
    intersect: &F,
)
    requires
        round_result(m0, m1, num_u, num_v, intersect),
        m1.nv() == m0.nv(),
        m1.nf() == m0.nf(),
    ensures
        m1 == m0,
        no_line_cuts(m0, intersect, num_u, num_v),
{
    let ls = choose|ls: Seq<HalfEdgeMesh>| #[trigger] round_steps(ls, num_u, num_v, intersect) && ls[0] == m0 && ls.last() == m1;
    let n = ls.len() - 1;
    lemma_round_still(ls, num_u, num_v, intersect, n);
    assert forall|u: bool, j: usize, f: int|
        (if u {
            j < num_u
        } else {
            j < num_v
        }) && 0 <= f < m0.nf() && m0.faces@[f].valid implies !line_crosses_face(m0, intersect, u, j, f)
        && !line_splits_face(m0, intersect, u, j, f) by {
        let k: int = if u {
            j + 1
        } else {
            num_u + j + 1
        };
        assert(ls[k] == m0);
        assert(ls[k - 1] == m0);
        assert(round_line(num_u, k - 1) == (u, j));
        assert(m0.faces@[f].valid);
        reveal(line_cut_result);
    }
}

/// `ms` holds the meshes the first rounds of a grid cut passed through,
/// from `m0`, each round continuing the cut (see `grid_rounds`).
spec fn rounds_so_far<F: Fn(bool, usize, &Vec<(usize, glam::Vec2, glam::Vec3)>) -> Option<TriangleIntersection>>(
    m0: HalfEdgeMesh,
    ms: Seq<HalfEdgeMesh>,
    num_u: usize,
    num_v: usize,
    intersect: &F,
) -> bool {
    &&& 1 <= ms.len() <= 7
    &&& ms[0] == m0
    &&& forall|r: int| #![trigger ms[r]] 0 < r < ms.len() ==> round_result(ms[r - 1], ms[r], num_u, num_v, intersect)
    &&& forall|r: int|
        #![trigger ms[r]]
        0 < r < ms.len() ==> ms[r].valid_face_count() != ms[r - 1].valid_face_count() && ms[r].valid_face_count() <= 150000
}

/// Cuts the mesh along `num_u` lines of the `u` family and `num_v` of the
/// `v` family (`intersect(is_u, index, corners)` says where line `index`
/// meets a face). All lines are applied in rounds, each cutting along every
/// `u` line and then every `v` line (see `cut_mesh_by_line`), until a round
/// leaves the number of valid faces unchanged, the mesh has more than
/// 150000 valid faces, or six rounds have run (see `grid_rounds`). When the
/// last round added no vertex and no face, the cut has settled: no line
/// crosses or splits any valid face of the mesh (see `no_line_cuts`). With
/// `finalize_triangles`, every valid
/// face that then has more than three corners is triangulated, and every
/// valid face ends with at most three corners unless its next diagonal
/// cannot be added (see `fan_step_allowed`) or 4095 diagonals were added.
/// The Euler characteristic is kept. When the lines run along the mesh's edges (see
/// `lines_along_edges`: grid-aligned lines on a quad grid) and nothing is
/// to be triangulated, the mesh is left as it is, quads and counts
/// included; when they run along edges and some valid face can be
/// triangulated (see `fan_step_allowed`), faces are added. When the lines
/// meet the triangles of the mesh on their edges (see
/// `lines_meet_triangles`), or when some line crosses a face of the mesh
/// and the lines cut before it run along edges (see
/// `first_line_crosses`), vertices are added; when such a line splits the
/// first face it meets (see `first_line_splits`), faces are.
pub fn cut_mesh_by_grid<F: Fn(bool, usize, &Vec<(usize, glam::Vec2, glam::Vec3)>) -> Option<TriangleIntersection>>(
    mesh: &mut HalfEdgeMesh,
    num_u: usize,
    num_v: usize,
    intersect: &F,
    finalize_triangles: bool,
)
    requires
        old(mesh).wf(),
        forall|u: bool, i: usize, c: &Vec<(usize, glam::Vec2, glam::Vec3)>| #[trigger] intersect.requires((u, i, c)),
    ensures
        final(mesh).wf(),
        keeps(*old(mesh), *final(mesh)),
        (num_u > 0 || num_v > 0) && lines_meet_triangles(*old(mesh), intersect) ==> final(mesh).nv() > old(mesh).nv(),
        (exists|u: bool, j: usize| #[trigger] first_line_crosses(*old(mesh), intersect, num_u, num_v, u, j)) ==> final(mesh).nv()
            > old(mesh).nv(),
        (exists|u: bool, j: usize| #[trigger] first_line_splits(*old(mesh), intersect, num_u, num_v, u, j)) ==> final(mesh).nf()
            > old(mesh).nf(),
        !finalize_triangles && lines_along_edges(*old(mesh), intersect) ==> *final(mesh) == *old(mesh),
        finalize_triangles && lines_along_edges(*old(mesh), intersect) && (exists|f: int|
            0 <= f < old(mesh).nf() && old(mesh).faces@[f].valid && #[trigger] fan_step_allowed(*old(mesh), f))
            ==> final(mesh).nf() > old(mesh).nf(),
        euler_characteristic(*final(mesh)) == euler_characteristic(*old(mesh)),
        finalize_triangles ==> forall|f: int|
            0 <= f < final(mesh).nf() && #[trigger] final(mesh).faces@[f].valid ==> final(mesh).face_walk(f).len() <= 3
                || !fan_step_allowed(*final(mesh), f) || final(mesh).nf() >= old(mesh).nf() + 4095,
        exists|ms: Seq<HalfEdgeMesh>|
            #[trigger] grid_rounds(*old(mesh), ms, num_u, num_v, intersect) && keeps(ms.last(), *final(mesh)) && (
            !finalize_triangles ==> *final(mesh) == ms.last()) && (ms.last().nv() == ms[ms.len() - 2].nv()
                && ms.last().nf() == ms[ms.len() - 2].nf() ==> no_line_cuts(ms.last(), intersect, num_u, num_v)),
{
    let ghost m0 = *mesh;
    let ghost grow = (num_u > 0 || num_v > 0) && lines_meet_triangles(m0, intersect);
    let ghost along = lines_along_edges(m0, intersect);
    let ghost one = exists|u: bool, j: usize| #[trigger] first_line_crosses(m0, intersect, num_u, num_v, u, j);
    let ghost (lu, lj) = choose|u: bool, j: usize| #[trigger] first_line_crosses(m0, intersect, num_u, num_v, u, j);
    let ghost two = exists|u: bool, j: usize| #[trigger] first_line_splits(m0, intersect, num_u, num_v, u, j);
    let ghost (cu, cj) = choose|u: bool, j: usize| #[trigger] first_line_splits(m0, intersect, num_u, num_v, u, j);
    proof {
        lemma_keeps_refl(m0);
    }
    let ghost mut ms: Seq<HalfEdgeMesh> = seq![m0];
    let mut round: usize = 0;
    while round < 6
        invariant_except_break
            round == 0 ==> *mesh == m0,
            ms.len() == round + 1,
            rounds_so_far(m0, ms, num_u, num_v, intersect),
            ms.last() == *mesh,
        invariant
            mesh.wf(),
            keeps(m0, *mesh),
            euler_characteristic(*mesh) == euler_characteristic(m0),
            forall|u: bool, i: usize, c: &Vec<(usize, glam::Vec2, glam::Vec3)>| #[trigger] intersect.requires((u, i, c)),
            grow == ((num_u > 0 || num_v > 0) && lines_meet_triangles(m0, intersect)),
            along == lines_along_edges(m0, intersect),
            one ==> first_line_crosses(m0, intersect, num_u, num_v, lu, lj),
            along ==> *mesh == m0,
            grow && round > 0 ==> mesh.nv() > m0.nv(),
            one && round > 0 ==> mesh.nv() > m0.nv(),
            two ==> first_line_splits(m0, intersect, num_u, num_v, cu, cj),
            two && round > 0 ==> mesh.nf() > m0.nf(),
        ensures
            mesh.wf(),
            keeps(m0, *mesh),
            euler_characteristic(*mesh) == euler_characteristic(m0),
            along ==> *mesh == m0,
            grow ==> mesh.nv() > m0.nv(),
            one ==> mesh.nv() > m0.nv(),
            two ==> mesh.nf() > m0.nf(),
            grid_rounds(m0, ms, num_u, num_v, intersect),
            ms.last() == *mesh,
        decreases 6 - round,
    {
        let faces_before = mesh.num_valid_faces();
        let ghost start = *mesh;
        let ghost mut ls: Seq<HalfEdgeMesh> = seq![start];
        let mut u: usize = 0;
        while u < num_u
            invariant
                ls.len() == u + 1,
                ls[0] == start,
                ls.last() == *mesh,
                forall|k: int|
                    #![trigger ls[k]]
                    0 < k < ls.len() ==> line_cut_result(
                        ls[k - 1],
                        ls[k],
                        intersect,
                        round_line(num_u, k - 1).0,
                        round_line(num_u, k - 1).1,
                    ),
                mesh.wf(),
                keeps(m0, *mesh),
                euler_characteristic(*mesh) == euler_characteristic(m0),
                forall|uu: bool, i: usize, c: &Vec<(usize, glam::Vec2, glam::Vec3)>| #[trigger] intersect.requires((uu, i, c)),
                grow == ((num_u > 0 || num_v > 0) && lines_meet_triangles(m0, intersect)),
                along == lines_along_edges(m0, intersect),
                one ==> first_line_crosses(m0, intersect, num_u, num_v, lu, lj),
                along ==> *mesh == m0,
                u <= num_u,
                grow && (round > 0 || u > 0) ==> mesh.nv() > m0.nv(),
                round == 0 && u == 0 ==> *mesh == m0,
                one && (round > 0 || (lu && u > lj)) ==> mesh.nv() > m0.nv(),
                one && round == 0 && !(lu && u > lj) ==> *mesh == m0,
                two ==> first_line_splits(m0, intersect, num_u, num_v, cu, cj),
                two && (round > 0 || (cu && u > cj)) ==> mesh.nf() > m0.nf(),
                two && round == 0 && !(cu && u > cj) ==> *mesh == m0,
            decreases num_u - u,
        {
            let ghost before = *mesh;
            proof {
                if one && round == 0 && !(lu && u == lj) && !(lu && u > lj) {
                    assert(line_along_edges(m0, intersect, true, u));
                }
                if one && round == 0 && lu && u == lj {
                    let g = choose|g: int| #[trigger] first_crossed_face(m0, intersect, lu, lj, g);
                    assert(first_crossed_face(*mesh, intersect, true, u, g));
                }
                if two && round == 0 && !(cu && u == cj) && !(cu && u > cj) {
                    assert(line_along_edges(m0, intersect, true, u));
                }
                if two && round == 0 && cu && u == cj {
                    let g = choose|g: int| #[trigger] first_split_face(m0, intersect, cu, cj, g);
                    assert(first_split_face(*mesh, intersect, true, u, g));
                }
                if grow && round == 0 && u == 0 {
                    assert(line_meets_triangles(m0, intersect, true, u));
                }
            }
            cut_mesh_by_line(mesh, true, u, intersect);
            proof {
                lemma_keeps_trans(m0, before, *mesh);
                if along {
                    assert(line_along_edges(m0, intersect, true, u));
                }
                assert(line_cut_result(before, *mesh, intersect, true, u)) by {
                    reveal(line_cut_result);
                }
                let l0 = ls;
                ls = ls.push(*mesh);
                assert(round_line(num_u, u as int) == (true, u));
                assert forall|k: int| #![trigger ls[k]] 0 < k < ls.len() implies line_cut_result(
                    ls[k - 1],
                    ls[k],
                    intersect,
                    round_line(num_u, k - 1).0,
                    round_line(num_u, k - 1).1,
                ) by {
                    if k < ls.len() - 1 {
                        assert(ls[k] == l0[k]);
                        assert(ls[k - 1] == l0[k - 1]);
                    }
                }
            }
            u = u + 1;
        }
        let mut v: usize = 0;
        while v < num_v
            invariant
                v <= num_v,
                ls.len() == num_u + v + 1,
                ls[0] == start,
                ls.last() == *mesh,
                forall|k: int|
                    #![trigger ls[k]]
                    0 < k < ls.len() ==> line_cut_result(
                        ls[k - 1],
                        ls[k],
                        intersect,
                        round_line(num_u, k - 1).0,
                        round_line(num_u, k - 1).1,
                    ),
                mesh.wf(),
                keeps(m0, *mesh),
                euler_characteristic(*mesh) == euler_characteristic(m0),
                forall|uu: bool, i: usize, c: &Vec<(usize, glam::Vec2, glam::Vec3)>| #[trigger] intersect.requires((uu, i, c)),
                grow == ((num_u > 0 || num_v > 0) && lines_meet_triangles(m0, intersect)),
                along == lines_along_edges(m0, intersect),
                one ==> first_line_crosses(m0, intersect, num_u, num_v, lu, lj),
                along ==> *mesh == m0,
                grow && (round > 0 || num_u > 0 || v > 0) ==> mesh.nv() > m0.nv(),
                round == 0 && num_u == 0 && v == 0 ==> *mesh == m0,
                one && (round > 0 || lu || v > lj) ==> mesh.nv() > m0.nv(),
                one && round == 0 && !lu && v <= lj ==> *mesh == m0,
                two ==> first_line_splits(m0, intersect, num_u, num_v, cu, cj),
                two && (round > 0 || cu || v > cj) ==> mesh.nf() > m0.nf(),
                two && round == 0 && !cu && v <= cj ==> *mesh == m0,
            decreases num_v - v,
        {
            let ghost before = *mesh;
            proof {
                if one && round == 0 && !lu && v < lj {
                    assert(line_along_edges(m0, intersect, false, v));
                }
                if one && round == 0 && !lu && v == lj {
                    let g = choose|g: int| #[trigger] first_crossed_face(m0, intersect, lu, lj, g);
                    assert(first_crossed_face(*mesh, intersect, false, v, g));
                }
                if two && round == 0 && !cu && v < cj {
                    assert(line_along_edges(m0, intersect, false, v));
                }
                if two && round == 0 && !cu && v == cj {
                    let g = choose|g: int| #[trigger] first_split_face(m0, intersect, cu, cj, g);
                    assert(first_split_face(*mesh, intersect, false, v, g));
                }
                if grow && round == 0 && num_u == 0 && v == 0 {
                    assert(line_meets_triangles(m0, intersect, false, v));
                }
            }
            cut_mesh_by_line(mesh, false, v, intersect);
            proof {
                lemma_keeps_trans(m0, before, *mesh);
                if along {
                    assert(line_along_edges(m0, intersect, false, v));
                }
                assert(line_cut_result(before, *mesh, intersect, false, v)) by {
                    reveal(line_cut_result);
                }
                let l0 = ls;
                ls = ls.push(*mesh);
                assert(round_line(num_u, num_u + v) == (false, v));
                assert forall|k: int| #![trigger ls[k]] 0 < k < ls.len() implies line_cut_result(
                    ls[k - 1],
                    ls[k],
                    intersect,
                    round_line(num_u, k - 1).0,
                    round_line(num_u, k - 1).1,
                ) by {
                    if k < ls.len() - 1 {
                        assert(ls[k] == l0[k]);
                        assert(ls[k - 1] == l0[k - 1]);
                    }
                }
            }
            v = v + 1;
        }
        let faces_after = mesh.num_valid_faces();
        proof {
            assert(round_steps(ls, num_u, num_v, intersect));
            assert(round_result(start, *mesh, num_u, num_v, intersect));
            let m_prev = ms;
            ms = ms.push(*mesh);
            assert forall|r: int| #![trigger ms[r]] 0 < r < ms.len() implies round_result(ms[r - 1], ms[r], num_u, num_v, intersect) by {
                if r < ms.len() - 1 {
                    assert(ms[r] == m_prev[r]);
                    assert(ms[r - 1] == m_prev[r - 1]);
                }
            }
            assert forall|r: int| #![trigger ms[r]] 0 < r < ms.len() - 1 implies ms[r].valid_face_count() != ms[r
                - 1].valid_face_count() && ms[r].valid_face_count() <= 150000 by {
                assert(ms[r] == m_prev[r]);
                assert(ms[r - 1] == m_prev[r - 1]);
            }
        }
        if faces_after == faces_before {
            break;
        }
        if faces_after > 150000 {
            break;
        }
        round = round + 1;
    }
    let ghost settled = *mesh;
    proof {
        lemma_keeps_refl(settled);
        let k = ms.len() - 1;
        assert(ms[k] == ms.last());
        if ms.last().nv() == ms[k - 1].nv() && ms.last().nf() == ms[k - 1].nf() {
            lemma_quiet_round(ms[k - 1], ms[k], num_u, num_v, intersect);
        }
    }
    if finalize_triangles {
        let n = mesh.faces.len();
        let mut fi: usize = 0;
        while fi < n
            invariant
                mesh.wf(),
                keeps(m0, *mesh),
                keeps(settled, *mesh),
                euler_characteristic(*mesh) == euler_characteristic(m0),
                n <= mesh.nf(),
                fi <= n,
                grow ==> mesh.nv() > m0.nv(),
                one ==> mesh.nv() > m0.nv(),
                two ==> mesh.nf() > m0.nf(),
                along ==> n == m0.nf(),
                along ==> mesh.nf() > m0.nf() || (*mesh == m0 && forall|g: int|
                    0 <= g < fi ==> !(m0.faces@[g].valid && #[trigger] fan_step_allowed(m0, g))),
                m0.nf() <= n,
                forall|g: int|
                    0 <= g < fi && #[trigger] mesh.faces@[g].valid ==> walk_ok(*mesh, g) && (mesh.face_walk(g).len() <= 3
                        || !fan_step_allowed(*mesh, g) || mesh.nf() >= n + 4096),
                forall|g: int|
                    n <= g < mesh.nf() && #[trigger] mesh.faces@[g].valid ==> mesh.face_walk(g).len() <= 3
                        || !fan_step_allowed(*mesh, g) || mesh.nf() >= n + 4095,
            decreases n - fi,
        {
            let ghost before = *mesh;
            if mesh.faces[fi].valid && mesh.face_half_edges(FaceId(fi)).len() > 3 {
                triangulate_face(mesh, FaceId(fi));
                proof {
                    lemma_keeps_trans(m0, before, *mesh);
                    lemma_keeps_trans(settled, before, *mesh);
                    assert forall|g: int|
                        n <= g < mesh.nf() && #[trigger] mesh.faces@[g].valid implies mesh.face_walk(g).len() <= 3
                            || !fan_step_allowed(*mesh, g) || mesh.nf() >= n + 4095 by {
                        if g < before.nf() {
                            assert(before.faces@[g].valid);
                            before.lemma_face_walk_ok(g);
                            assert(walk_kept(before, *mesh, g));
                            if fan_step_allowed(*mesh, g) {
                                lemma_fan_step_allowed_back(before, *mesh, g);
                            }
                        } else {
                            assert(piece_done(before, *mesh, g));
                        }
                    }
                    assert forall|g: int|
                        0 <= g < fi + 1 && #[trigger] mesh.faces@[g].valid implies walk_ok(*mesh, g) && (
                        mesh.face_walk(g).len() <= 3 || !fan_step_allowed(*mesh, g) || mesh.nf() >= n + 4096) by {
                        if g < fi {
                            assert(before.faces@[g].valid);
                            assert(walk_kept(before, *mesh, g));
                            if fan_step_allowed(*mesh, g) {
                                lemma_fan_step_allowed_back(before, *mesh, g);
                            }
                        }
                    }
                }
            } else {
                proof {
                    assert forall|g: int|
                        0 <= g < fi + 1 && #[trigger] mesh.faces@[g].valid implies walk_ok(*mesh, g) && (
                        mesh.face_walk(g).len() <= 3 || !fan_step_allowed(*mesh, g) || mesh.nf() >= n + 4096) by {
                        if g == fi {
                            assert(mesh.faces@[fi as int].valid);
                        }
                    }
                }
            }
            fi = fi + 1;
        }
        proof {
            assert forall|f: int|
                0 <= f < mesh.nf() && #[trigger] mesh.faces@[f].valid implies mesh.face_walk(f).len() <= 3
                    || !fan_step_allowed(*mesh, f) || mesh.nf() >= m0.nf() + 4095 by {
                if f < n {
                    assert(mesh.faces@[f].valid);
                }
            }
        }
    }
}

/// What the grid cut promises of `m1`, the mesh it leaves, given `m0` and
/// the same lines (see `cut_mesh_by_grid`).
pub open spec fn grid_cut_result<F: Fn(bool, usize, &Vec<(usize, glam::Vec2, glam::Vec3)>) -> Option<TriangleIntersection>>(
    m0: HalfEdgeMesh,
    m1: HalfEdgeMesh,
    num_u: usize,
    num_v: usize,
    intersect: &F,
    finalize_triangles: bool,
) -> bool {
    &&& m1.wf()
    &&& keeps(m0, m1)
    &&& (num_u > 0 || num_v > 0) && lines_meet_triangles(m0, intersect) ==> m1.nv() > m0.nv()
    &&& (exists|u: bool, j: usize| #[trigger] first_line_crosses(m0, intersect, num_u, num_v, u, j)) ==> m1.nv() > m0.nv()
    &&& (exists|u: bool, j: usize| #[trigger] first_line_splits(m0, intersect, num_u, num_v, u, j)) ==> m1.nf() > m0.nf()
    &&& !finalize_triangles && lines_along_edges(m0, intersect) ==> m1 == m0
    &&& finalize_triangles && lines_along_edges(m0, intersect) && (exists|f: int|
        0 <= f < m0.nf() && m0.faces@[f].valid && #[trigger] fan_step_allowed(m0, f)) ==> m1.nf() > m0.nf()
    &&& euler_characteristic(m1) == euler_characteristic(m0)
    &&& finalize_triangles ==> forall|f: int|
        0 <= f < m1.nf() && #[trigger] m1.faces@[f].valid ==> m1.face_walk(f).len() <= 3 || !fan_step_allowed(m1, f)
            || m1.nf() >= m0.nf() + 4095
    &&& exists|ms: Seq<HalfEdgeMesh>|
        #[trigger] grid_rounds(m0, ms, num_u, num_v, intersect) && keeps(ms.last(), m1) && (!finalize_triangles ==> m1
            == ms.last()) && (ms.last().nv() == ms[ms.len() - 2].nv() && ms.last().nf() == ms[ms.len() - 2].nf()
            ==> no_line_cuts(ms.last(), intersect, num_u, num_v))
}

/// `out` with the face of `h` added, if that face is valid and new.
pub open spec fn add_face(m: HalfEdgeMesh, out: Seq<FaceId>, h: HalfEdgeId) -> Seq<FaceId> {
    let f = m.half_edges@[h.0 as int].face;
    if m.faces@[f.0 as int].valid && !out.contains(f) {
        out.push(f)
    } else {
        out
    }
}

/// The valid faces of the half-edges of `s`, each once, in order.
pub open spec fn collect_faces(m: HalfEdgeMesh, s: Seq<HalfEdgeId>) -> Seq<FaceId>
    decreases s.len(),
{
    if s.len() == 0 {
        Seq::empty()
    } else {
        add_face(m, collect_faces(m, s.drop_last()), s.last())
    }
}

/// Continues `out` backwards round a vertex from half-edge `he`: the twin
/// of the half-edge before `he` leads to the next face, while there is a
/// twin and its face is valid and new (at most `fuel` steps).
pub open spec fn back_faces(m: HalfEdgeMesh, he: HalfEdgeId, out: Seq<FaceId>, fuel: nat) -> Seq<FaceId>
    decreases fuel,
{
    if fuel == 0 {
        out
    } else {
        let t = m.half_edges@[m.prev_of(he).0 as int].twin;
        if t.0 == none_id() {
            out
        } else {
            let f = m.half_edges@[t.0 as int].face;
            if !m.faces@[f.0 as int].valid || out.contains(f) {
                out
            } else {
                back_faces(m, t, out.push(f), (fuel - 1) as nat)
            }
        }
    }
}

/// The valid faces round vertex `v`: those met walking forwards from its
/// outgoing half-edge (see `is_ring`); when that walk ends at a half-edge
/// without twin, also those met walking backwards from the same start.
pub open spec fn faces_around(m: HalfEdgeMesh, v: VertexId) -> Seq<FaceId> {
    let start = m.vertices@[v.0 as int].outgoing;
    if start.0 == none_id() {
        Seq::empty()
    } else {
        let r = choose|r: Seq<HalfEdgeId>| m.is_ring(r, start);
        let out = collect_faces(m, r);
        if m.half_edges@[r.last().0 as int].twin.0 != none_id() {
            out
        } else {
            back_faces(m, start, out, (m.nf() + 1) as nat)
        }
    }
}

/// Adding a face keeps the faces already there.
proof fn lemma_add_face_keeps(m: HalfEdgeMesh, out: Seq<FaceId>, h: HalfEdgeId, f: FaceId)
    requires
        out.contains(f),
    ensures
        add_face(m, out, h).contains(f),
{
    if add_face(m, out, h) != out {
        let k = choose|k: int| 0 <= k < out.len() && out[k] == f;
        assert(add_face(m, out, h)[k] == f);
    }
}

/// The valid face of each half-edge of `s` is among `collect_faces(m, s)`.
proof fn lemma_collect_faces_has(m: HalfEdgeMesh, s: Seq<HalfEdgeId>, j: int)
    requires
        0 <= j < s.len(),
        m.faces@[m.half_edges@[s[j].0 as int].face.0 as int].valid,
    ensures
        collect_faces(m, s).contains(m.half_edges@[s[j].0 as int].face),
    decreases s.len(),
{
    let f = m.half_edges@[s[j].0 as int].face;
    let rest = collect_faces(m, s.drop_last());
    if j < s.len() - 1 {
        assert(s.drop_last()[j] == s[j]);
        lemma_collect_faces_has(m, s.drop_last(), j);
        lemma_add_face_keeps(m, rest, s.last(), f);
    } else if !rest.contains(f) {
        assert(collect_faces(m, s) == rest.push(f));
        assert(rest.push(f)[rest.len() as int] == f);
    }
}

/// Walking backwards round a vertex only adds faces.
proof fn lemma_back_faces_keeps(m: HalfEdgeMesh, he: HalfEdgeId, out: Seq<FaceId>, fuel: nat, f: FaceId)
    requires
        out.contains(f),
    ensures
        back_faces(m, he, out, fuel).contains(f),
    decreases fuel,
{
    if fuel > 0 {
        let t = m.half_edges@[m.prev_of(he).0 as int].twin;
        if t.0 != none_id() {
            let g = m.half_edges@[t.0 as int].face;
            if m.faces@[g.0 as int].valid && !out.contains(g) {
                let k = choose|k: int| 0 <= k < out.len() && out[k] == f;
                assert(out.push(g)[k] == f);
                lemma_back_faces_keeps(m, t, out.push(g), (fuel - 1) as nat, f);
            }
        }
    }
}

/// The valid face of every half-edge met walking round `v` from its
/// outgoing half-edge (see `is_ring_prefix`) is among `faces_around(m, v)`.
pub proof fn lemma_faces_around_has(m: HalfEdgeMesh, v: VertexId, r: Seq<HalfEdgeId>, p: Seq<HalfEdgeId>, i: int)
    requires
        m.vertices@[v.0 as int].outgoing.0 != none_id(),
        m.is_ring(r, m.vertices@[v.0 as int].outgoing),
        m.is_ring_prefix(p, m.vertices@[v.0 as int].outgoing),
        0 <= i < p.len(),
        m.faces@[m.half_edges@[p[i].0 as int].face.0 as int].valid,
    ensures
        faces_around(m, v).contains(m.half_edges@[p[i].0 as int].face),
{
    let start = m.vertices@[v.0 as int].outgoing;
    lemma_faces_around_forward(m, v, r);
    m.lemma_ring_prefix_within(r, p, start);
    m.lemma_ring_prefix_agree(p, r, start, i);
    lemma_collect_faces_has(m, r, i);
    let f = m.half_edges@[p[i].0 as int].face;
    if m.half_edges@[r.last().0 as int].twin.0 == none_id() {
        lemma_back_faces_keeps(m, start, collect_faces(m, r), (m.nf() + 1) as nat, f);
    }
}

/// Whether `f` is among `out`.
fn contains_face(out: &Vec<FaceId>, f: FaceId) -> (r: bool)
    ensures
        r == out@.contains(f),
{
    let mut i: usize = 0;
    while i < out.len()
        invariant
            i <= out@.len(),
            forall|j: int| 0 <= j < i ==> out@[j] != f,
        decreases out@.len() - i,
    {
        if out[i] == f {
            return true;
        }
        i = i + 1;
    }
    false
}

/// Distinct faces of a mesh with `n` faces number at most `n`.
proof fn lemma_faces_distinct_len(s: Seq<FaceId>, n: int)
    requires
        0 <= n,
        s.no_duplicates(),
        forall|i: int| 0 <= i < s.len() ==> (#[trigger] s[i]).0 < n,
    ensures
        s.len() <= n,
{
    let t = s.map_values(|f: FaceId| f.0 as int);
    assert forall|i: int, j: int| 0 <= i < t.len() && 0 <= j < t.len() && i != j implies t[i] != t[j] by {
        assert(s[i] != s[j]);
    }
    crate::mesh::half_edge::lemma_distinct_bounded(t, n);
}

proof fn lemma_push_face(out: Seq<FaceId>, f: FaceId, n: int)
    requires
        out.no_duplicates(),
        !out.contains(f),
        forall|i: int| 0 <= i < out.len() ==> (#[trigger] out[i]).0 < n,
        f.0 < n,
    ensures
        out.push(f).no_duplicates(),
        forall|i: int| 0 <= i < out.push(f).len() ==> (#[trigger] out.push(f)[i]).0 < n,
{
    let e = out.push(f);
    assert forall|i: int, j: int| 0 <= i < e.len() && 0 <= j < e.len() && i != j implies e[i] != e[j] by {
        if i < out.len() && j < out.len() {
        } else if i == out.len() {
            assert(e[j] == out[j]);
        } else {
            assert(e[i] == out[i]);
        }
    }
    assert forall|i: int| 0 <= i < e.len() implies (#[trigger] e[i]).0 < n by {
        if i < out.len() {
            assert(e[i] == out[i]);
        }
    }
}

/// The valid faces round vertex `v` (see `faces_around`), each once: every
/// valid face of a half-edge met walking round `v` from its outgoing
/// half-edge is listed, and, when that walk stops at a half-edge without
/// twin, those met walking back from the same start.
#[verifier::spinoff_prover]
#[verifier::rlimit(30)]
pub fn faces_around_vertex(mesh: &HalfEdgeMesh, v: VertexId) -> (out: Vec<FaceId>)
    requires
        mesh.wf(),
        v.0 < mesh.nv(),
    ensures
        out@ == faces_around(*mesh, v),
        out@.no_duplicates(),
        forall|i: int| 0 <= i < out@.len() ==> (#[trigger] out@[i]).0 < mesh.nf() && mesh.faces@[out@[i].0 as int].valid,
        mesh.vertices@[v.0 as int].outgoing.0 != none_id() ==> forall|p: Seq<HalfEdgeId>, i: int|
            #![trigger mesh.is_ring_prefix(p, mesh.vertices@[v.0 as int].outgoing), p[i]]
            mesh.is_ring_prefix(p, mesh.vertices@[v.0 as int].outgoing) && 0 <= i < p.len()
                && mesh.faces@[mesh.half_edges@[p[i].0 as int].face.0 as int].valid ==> out@.contains(
                mesh.half_edges@[p[i].0 as int].face,
            ),
{
    let mut out: Vec<FaceId> = Vec::new();
    let start = mesh.vertices[v.0].outgoing;
    if start.0 == usize::MAX {
        return out;
    }
    proof {
        assert(mesh.vertex_ok(v.0 as int));
    }
    let mut he = start;
    let mut closed = false;
    let ghost mut s: Seq<HalfEdgeId> = seq![start];
    loop
        invariant_except_break
            he == s.last(),
            out@ == collect_faces(*mesh, s.drop_last()),
            !closed,
        invariant
            mesh.wf(),
            start == mesh.vertices@[v.0 as int].outgoing,
            start.0 < mesh.nh(),
            start.0 != usize::MAX,
            mesh.is_ring_prefix(s, start),
            s.no_duplicates(),
            forall|i: int| 0 <= i < s.len() ==> (#[trigger] s[i]).0 < mesh.nh(),
            s.len() <= mesh.nh(),
            out@.no_duplicates(),
            forall|i: int| 0 <= i < out@.len() ==> (#[trigger] out@[i]).0 < mesh.nf() && mesh.faces@[out@[i].0 as int].valid,
        ensures
            mesh.is_ring(s, start),
            out@ == collect_faces(*mesh, s),
            closed <==> mesh.half_edges@[s.last().0 as int].twin.0 != none_id(),
        decreases mesh.nh() - s.len(),
    {
        let f = mesh.half_edges[he.0].face;
        proof {
            let _ = mesh.half_edges@[he.0 as int];
            assert(s.drop_last().push(he) =~= s);
        }
        if mesh.faces[f.0].valid && !contains_face(&out, f) {
            proof {
                lemma_push_face(out@, f, mesh.nf());
            }
            out.push(f);
        }
        proof {
            assert(out@ == collect_faces(*mesh, s));
        }
        let t = mesh.half_edges[he.0].twin;
        if t.0 == usize::MAX {
            break;
        }
        proof {
            assert(mesh.link_ok(he.0 as int));
        }
        let nx = mesh.half_edges[t.0].next;
        if nx == start {
            closed = true;
            break;
        }
        proof {
            mesh.lemma_ring_extends(s, start);
            let s0 = s;
            s = s.push(nx);
            assert(s.drop_last() =~= s0);
            crate::mesh::ring::lemma_distinct_len_le(s, mesh.nh());
        }
        he = nx;
    }
    proof {
        assert forall|p: Seq<HalfEdgeId>, i: int|
            #![trigger mesh.is_ring_prefix(p, start), p[i]]
            mesh.is_ring_prefix(p, start) && 0 <= i < p.len() && mesh.faces@[mesh.half_edges@[p[i].0 as int].face.0 as int].valid
            implies faces_around(*mesh, v).contains(mesh.half_edges@[p[i].0 as int].face) by {
            lemma_faces_around_has(*mesh, v, s, p, i);
        }
    }
    if closed {
        proof {
            lemma_faces_around_forward(*mesh, v, s);
        }
        return out;
    }
    let ghost out1 = out@;
    let nf = mesh.faces.len();
    let mut he = start;
    let ghost mut k: nat = 0;
    proof {
        lemma_faces_around_forward(*mesh, v, s);
        lemma_faces_distinct_len(out@, nf as int);
    }
    loop
        invariant
            mesh.wf(),
            nf == mesh.nf(),
            he.0 < mesh.nh(),
            out@.no_duplicates(),
            forall|i: int| 0 <= i < out@.len() ==> (#[trigger] out@[i]).0 < nf && mesh.faces@[out@[i].0 as int].valid,
            out@.len() == out1.len() + k,
            out@.len() <= nf,
            faces_around(*mesh, v) == back_faces(*mesh, he, out@, (nf + 1 - k) as nat),
            k <= nf,
            start == mesh.vertices@[v.0 as int].outgoing,
            forall|p: Seq<HalfEdgeId>, i: int|
                #![trigger mesh.is_ring_prefix(p, start), p[i]]
                mesh.is_ring_prefix(p, start) && 0 <= i < p.len() && mesh.faces@[mesh.half_edges@[p[i].0 as int].face.0 as int].valid
                    ==> faces_around(*mesh, v).contains(mesh.half_edges@[p[i].0 as int].face),
        decreases nf - out@.len(),
    {
        let p = mesh.half_edges[he.0].prev;
        proof {
            assert(mesh.link_ok(he.0 as int));
            let _ = mesh.half_edges@[he.0 as int];
        }
        let t = mesh.half_edges[p.0].twin;
        if t.0 == usize::MAX {
            return out;
        }
        proof {
            assert(mesh.link_ok(p.0 as int));
        }
        let f = mesh.half_edges[t.0].face;
        proof {
            let _ = mesh.half_edges@[t.0 as int];
        }
        if !mesh.faces[f.0].valid || contains_face(&out, f) {
            return out;
        }
        proof {
            lemma_push_face(out@, f, nf as int);
        }
        out.push(f);
        he = t;
        proof {
            k = k + 1;
            lemma_faces_distinct_len(out@, nf as int);
        }
    }
}

/// The forward walk that `faces_around_vertex` makes is the one
/// `faces_around` chooses.
proof fn lemma_faces_around_forward(m: HalfEdgeMesh, v: VertexId, s: Seq<HalfEdgeId>)
    requires
        m.vertices@[v.0 as int].outgoing.0 != none_id(),
        m.is_ring(s, m.vertices@[v.0 as int].outgoing),
    ensures
        ({
            let start = m.vertices@[v.0 as int].outgoing;
            let r = choose|r: Seq<HalfEdgeId>| m.is_ring(r, start);
            r == s
        }),
{
    let start = m.vertices@[v.0 as int].outgoing;
    let r = choose|r: Seq<HalfEdgeId>| m.is_ring(r, start);
    assert(m.is_ring(r, start));
    m.lemma_ring_prefix_within(s, r, start);
    m.lemma_ring_prefix_within(r, s, start);
    assert forall|i: int| 0 <= i < s.len() implies s[i] == r[i] by {
        m.lemma_ring_prefix_agree(s, r, start, i);
    }
    assert(s =~= r);
}

/// Vertex `b` is a corner of face `f`.
pub open spec fn has_corner(m: HalfEdgeMesh, f: FaceId, b: VertexId) -> bool {
    exists|k: int| 0 <= k < m.face_walk(f.0 as int).len() && m.half_edges@[(#[trigger] m.face_walk(f.0 as int)[k]).0 as int].origin == b
}

/// Whether vertex `b` is a corner of face `f`.
pub(crate) fn face_has_corner(mesh: &HalfEdgeMesh, f: FaceId, b: VertexId) -> (r: bool)
    requires
        mesh.bounded(),
        f.0 < mesh.nf(),
    ensures
        r == has_corner(*mesh, f, b),
{
    let hes = mesh.face_half_edges(f);
    let mut k: usize = 0;
    while k < hes.len()
        invariant
            mesh.bounded(),
            hes@ == mesh.face_walk(f.0 as int),
            forall|j: int| 0 <= j < hes@.len() ==> (#[trigger] hes@[j]).0 < mesh.nh(),
            k <= hes@.len(),
            forall|j: int| 0 <= j < k ==> mesh.half_edges@[(#[trigger] hes@[j]).0 as int].origin != b,
        decreases hes@.len() - k,
    {
        if mesh.half_edges[hes[k].0].origin == b {
            return true;
        }
        k = k + 1;
    }
    false
}

/// The first face round `a` (see `faces_around`) that has `b` as a corner.
/// The first face round `a` (in the order of `faces_around`) that has `b`
/// as a corner.
pub open spec fn first_face_with(m: HalfEdgeMesh, a: VertexId, b: VertexId) -> Option<FaceId> {
    let fs = faces_around(m, a);
    if exists|i: int| 0 <= i < fs.len() && has_corner(m, #[trigger] fs[i], b) {
        let i = choose|i: int|
            0 <= i < fs.len() && has_corner(m, fs[i], b) && forall|j: int| 0 <= j < i ==> !has_corner(m, #[trigger] fs[j], b);
        Some(fs[i])
    } else {
        None
    }
}

proof fn lemma_first_face_with(m: HalfEdgeMesh, a: VertexId, b: VertexId, i: int)
    requires
        0 <= i < faces_around(m, a).len(),
        has_corner(m, faces_around(m, a)[i], b),
        forall|j: int| 0 <= j < i ==> !has_corner(m, #[trigger] faces_around(m, a)[j], b),
    ensures
        first_face_with(m, a, b) == Some(faces_around(m, a)[i]),
{
    let fs = faces_around(m, a);
    let k = choose|k: int|
        0 <= k < fs.len() && has_corner(m, fs[k], b) && forall|j: int| 0 <= j < k ==> !has_corner(m, #[trigger] fs[j], b);
    if k < i {
        assert(!has_corner(m, fs[k], b));
    }
    if i < k {
        assert(!has_corner(m, fs[i], b));
    }
}

pub fn find_face_with_both(mesh: &HalfEdgeMesh, a: VertexId, b: VertexId) -> (r: Option<FaceId>)
    requires
        mesh.wf(),
        a.0 < mesh.nv(),
    ensures
        ({
            let fs = faces_around(*mesh, a);
            &&& r is None <==> forall|i: int| 0 <= i < fs.len() ==> !has_corner(*mesh, #[trigger] fs[i], b)
            &&& r matches Some(f) ==> exists|i: int|
                0 <= i < fs.len() && fs[i] == f && has_corner(*mesh, f, b) && forall|j: int| 0 <= j < i ==> !has_corner(*mesh, #[trigger] fs[j], b)
            &&& r matches Some(f) ==> f.0 < mesh.nf() && mesh.faces@[f.0 as int].valid
        }),
        r == first_face_with(*mesh, a, b),
{
    let fs = faces_around_vertex(mesh, a);
    let mut i: usize = 0;
    while i < fs.len()
        invariant
            mesh.wf(),
            fs@ == faces_around(*mesh, a),
            forall|j: int| 0 <= j < fs@.len() ==> (#[trigger] fs@[j]).0 < mesh.nf() && mesh.faces@[fs@[j].0 as int].valid,
            i <= fs@.len(),
            forall|j: int| 0 <= j < i ==> !has_corner(*mesh, #[trigger] fs@[j], b),
        decreases fs@.len() - i,
    {
        if face_has_corner(mesh, fs[i], b) {
            proof {
                lemma_first_face_with(*mesh, a, b, i as int);
            }
            return Some(fs[i]);
        }
        i = i + 1;
    }
    None
}

/// What `mark_edge_cut_between(face, a, b)` does to `m0`, giving `m1`, and
/// whether it found the edge (`r`).
pub open spec fn edge_marked(m0: HalfEdgeMesh, m1: HalfEdgeMesh, face: int, a: VertexId, b: VertexId, r: bool) -> bool {
    let c = m0.face_walk(face);
    &&& m0.same_but_cut(m1)
    &&& r <==> exists|j: int| 0 <= j < c.len() && joins(m0, #[trigger] c[j], a, b)
    &&& !r ==> m1 == m0
    &&& r ==> exists|j: int|
        0 <= j < c.len() && joins(m0, c[j], a, b) && (forall|i: int| 0 <= i < j ==> !joins(m0, #[trigger] c[i], a, b))
            && forall|x: int|
            0 <= x < m0.nh() ==> (#[trigger] m1.half_edges@[x]).cut == (m0.half_edges@[x].cut || x == c[j].0 || x
                == m0.half_edges@[c[j].0 as int].twin.0)
}

/// Marks the edge between `a` and `b` as lying on a cut curve, looking for
/// it in the faces round `a` in turn (see `mark_edge_cut_between`). Returns
/// whether it was found; otherwise nothing changes.
pub fn mark_edge_cut_anywhere(mesh: &mut HalfEdgeMesh, a: VertexId, b: VertexId) -> (r: bool)
    requires
        old(mesh).wf(),
        a.0 < old(mesh).nv(),
    ensures
        final(mesh).wf(),
        ({
            let fs = faces_around(*old(mesh), a);
            &&& !r ==> *final(mesh) == *old(mesh)
            &&& !r ==> forall|i: int| 0 <= i < fs.len() ==> !edge_marked(*old(mesh), *old(mesh), (#[trigger] fs[i]).0 as int, a, b, true)
            &&& r ==> exists|i: int|
                0 <= i < fs.len() && edge_marked(*old(mesh), *final(mesh), (#[trigger] fs[i]).0 as int, a, b, true) && forall|j: int|
                    0 <= j < i ==> edge_marked(*old(mesh), *old(mesh), (#[trigger] fs[j]).0 as int, a, b, false)
        }),
{
    let ghost m0 = *mesh;
    let fs = faces_around_vertex(mesh, a);
    let mut i: usize = 0;
    while i < fs.len()
        invariant
            m0.wf(),
            *mesh == m0,
            m0 == *old(mesh),
            fs@ == faces_around(m0, a),
            forall|j: int| 0 <= j < fs@.len() ==> (#[trigger] fs@[j]).0 < m0.nf() && m0.faces@[fs@[j].0 as int].valid,
            i <= fs@.len(),
            forall|j: int| 0 <= j < i ==> edge_marked(m0, m0, (#[trigger] fs@[j]).0 as int, a, b, false),
            forall|j: int| 0 <= j < i ==> !edge_marked(m0, m0, (#[trigger] fs@[j]).0 as int, a, b, true),
        decreases fs@.len() - i,
    {
        let found = mark_edge_cut_between(mesh, fs[i], a, b);
        if found {
            proof {
                assert(edge_marked(m0, *mesh, fs@[i as int].0 as int, a, b, true));
            }
            return true;
        }
        proof {
            assert(edge_marked(m0, m0, fs@[i as int].0 as int, a, b, false));
            assert(!edge_marked(m0, m0, fs@[i as int].0 as int, a, b, true));
        }
        i = i + 1;
    }
    false
}

} // verus!
