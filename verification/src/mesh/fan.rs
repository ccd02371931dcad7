//! Inserting a vertex inside a face and fanning the face around it.
use vstd::prelude::*;
use crate::mesh::face_split::{cyc_pred, cyc_succ, lemma_last_origin};
use crate::mesh::half_edge::{FaceId, HEFace, HEVertex, HalfEdge, HalfEdgeId, HalfEdgeMesh, VertexId};

verus! {

/// A cycle is no longer than the number of half-edges.
pub proof fn lemma_distinct_len(m0: HalfEdgeMesh, c: Seq<HalfEdgeId>)
    requires
        m0.is_cycle(c),
    ensures
        c.len() <= m0.nh(),
{
    let s = c.map_values(|h: HalfEdgeId| h.0 as int);
    assert forall|i: int, j: int| 0 <= i < s.len() && 0 <= j < s.len() && i != j implies s[i] != s[j] by {
        assert(c[i] != c[j]);
    }
    crate::mesh::half_edge::lemma_distinct_bounded(s, m0.nh());
}

/// Adding an isolated vertex keeps a mesh well-formed.
pub proof fn lemma_add_vertex_wf(m0: HalfEdgeMesh, m1: HalfEdgeMesh, pos: glam::Vec3, uv: glam::Vec2)
    requires
        m0.wf(),
        m1.vertices@ == m0.vertices@.push(HEVertex { position: pos, uv, outgoing: HalfEdgeId(usize::MAX) }),
        m1.half_edges@ == m0.half_edges@,
        m1.faces@ == m0.faces@,
    ensures
        m1.wf(),
{
    assert forall|h: int| 0 <= h < m1.nh() implies #[trigger] m1.link_ok(h) by {
        assert(m0.link_ok(h));
    }
    assert forall|f: int| 0 <= f < m1.nf() implies #[trigger] m1.face_ok(f) by {
        assert(m0.face_ok(f));
    }
    assert forall|v: int| 0 <= v < m1.nv() implies #[trigger] m1.vertex_ok(v) by {
        if v < m0.nv() {
            assert(m0.vertex_ok(v));
            assert(m1.vertices@[v] == m0.vertices@[v]);
        }
    }
    assert forall|h: int| 0 <= h < m1.nh() implies (#[trigger] m1.half_edges@[h]).next.0 < m1.nh() by {
        let _ = m0.half_edges@[h];
    }
    assert forall|v: int| 0 <= v < m1.nv() implies ((#[trigger] m1.vertices@[v]).outgoing.0 == usize::MAX
        || m1.vertices@[v].outgoing.0 < m1.nh()) by {
        if v < m0.nv() {
            let _ = m0.vertices@[v];
        }
    }
}

/// Face of the `i`-th fan triangle: the original face for `i == 0`, then new
/// faces numbered from `g0` on.
pub open spec fn fan_face(face: int, g0: int, i: int) -> FaceId {
    if i == 0 {
        FaceId(face as usize)
    } else {
        FaceId((g0 + i - 1) as usize)
    }
}

/// Relation between the mesh before (`m0`) and after (`m1`) fanning face
/// `face` (cycle `c` = h_0 .. h_{m-1}, h_i: v_i -> v_{i+1}) around a new
/// vertex `p` with `m >= 3`.
///
/// Half-edge `n0 + i` is `p -> v_i`, half-edge `n0 + m + i` is `v_i -> p`;
/// triangle `i` is `p -> v_i -> v_{i+1} -> p` with face `fan_face(face, nf, i)`.
/// Each corner's outgoing half-edge becomes the last cycle half-edge leaving
/// it; the other half-edges, faces and vertices are unchanged.
pub open spec fn fan_relation(
    m0: HalfEdgeMesh,
    m1: HalfEdgeMesh,
    face: int,
    position: glam::Vec3,
    uv: glam::Vec2,
) -> bool {
    let c = m0.face_walk(face);
    let m = c.len() as int;
    let n0 = m0.nh();
    let g0 = m0.nf();
    let p = VertexId(m0.nv() as usize);
    &&& m1.nv() == m0.nv() + 1
    &&& m1.vertices@[m0.nv()] == HEVertex { position, uv, outgoing: HalfEdgeId(n0 as usize) }
    &&& forall|v: int|
        0 <= v < m0.nv() ==> (#[trigger] m1.vertices@[v]) == if m0.last_origin_in(c, VertexId(v as usize), m) >= 0 {
            HEVertex { outgoing: c[m0.last_origin_in(c, VertexId(v as usize), m)], ..m0.vertices@[v] }
        } else {
            m0.vertices@[v]
        }
    &&& m1.nf() == g0 + m - 1
    &&& m1.faces@[face] == HEFace { half_edge: HalfEdgeId(n0 as usize), ..m0.faces@[face] }
    &&& forall|f: int| 0 <= f < g0 && f != face ==> #[trigger] m1.faces@[f] == m0.faces@[f]
    &&& forall|i: int|
        1 <= i < m ==> #[trigger] m1.faces@[g0 + i - 1] == HEFace {
            half_edge: HalfEdgeId((n0 + i) as usize),
            valid: true,
            patch_index: m0.faces@[face].patch_index,
            component_id: None,
        }
    &&& m1.nh() == n0 + 2 * m
    &&& forall|i: int|
        0 <= i < m ==> #[trigger] m1.half_edges@[n0 + i] == HalfEdge {
            origin: p,
            twin: HalfEdgeId((n0 + m + i) as usize),
            next: c[i],
            prev: HalfEdgeId((n0 + m + cyc_succ(i, m)) as usize),
            face: fan_face(face, g0, i),
            cut: false,
        }
    &&& forall|i: int|
        0 <= i < m ==> #[trigger] m1.half_edges@[n0 + m + i] == HalfEdge {
            origin: m0.half_edges@[c[i].0 as int].origin,
            twin: HalfEdgeId((n0 + i) as usize),
            next: HalfEdgeId((n0 + cyc_pred(i, m)) as usize),
            prev: c[cyc_pred(i, m)],
            face: fan_face(face, g0, cyc_pred(i, m)),
            cut: false,
        }
    &&& forall|i: int|
        0 <= i < m ==> #[trigger] m1.half_edges@[c[i].0 as int] == HalfEdge {
            next: HalfEdgeId((n0 + m + cyc_succ(i, m)) as usize),
            prev: HalfEdgeId((n0 + i) as usize),
            face: fan_face(face, g0, i),
            ..m0.half_edges@[c[i].0 as int]
        }
    &&& forall|h: int|
        0 <= h < n0 && !c.contains(HalfEdgeId(h as usize)) ==> #[trigger] m1.half_edges@[h] == m0.half_edges@[h]
}


/// What `lemma_fan_wf` assumes.
pub open spec fn fan_pre(m0: HalfEdgeMesh, m1: HalfEdgeMesh, face: int, position: glam::Vec3, uv: glam::Vec2) -> bool {
    &&& m0.wf()
    &&& 0 <= face < m0.nf()
    &&& m0.faces@[face].valid
    &&& m0.is_cycle(m0.face_walk(face))
    &&& m0.is_walk_from(m0.face_walk(face), m0.faces@[face].half_edge, m0.nh() + 1)
    &&& m0.face_walk(face).len() >= 3
    &&& 3 * m0.nh() + 3 < usize::MAX
    &&& m0.nf() + m0.nh() + 1 < usize::MAX
    &&& m0.nv() + 1 < usize::MAX
    &&& fan_relation(m0, m1, face, position, uv)
}

/// Half-edge `h` of `m` points into the mesh and agrees with its neighbours.
pub open spec fn he_good(m: HalfEdgeMesh, h: int) -> bool {
    &&& m.half_edges@[h].next.0 < m.nh()
    &&& m.half_edges@[h].prev.0 < m.nh()
    &&& m.half_edges@[h].origin.0 < m.nv()
    &&& m.half_edges@[h].face.0 < m.nf()
    &&& (m.half_edges@[h].twin.0 == usize::MAX || m.half_edges@[h].twin.0 < m.nh())
    &&& m.link_ok(h)
}

proof fn lemma_fan_basics(m0: HalfEdgeMesh, m1: HalfEdgeMesh, face: int, position: glam::Vec3, uv: glam::Vec2)
    requires
        fan_pre(m0, m1, face, position, uv),
    ensures
        forall|i: int| 0 <= i < m0.face_walk(face).len() ==> (#[trigger] fan_face(face, m0.nf(), i)).0 < m1.nf()
            && m1.faces@[fan_face(face, m0.nf(), i).0 as int].valid,
        forall|i: int| 0 <= i < m0.face_walk(face).len() ==> (#[trigger] m0.face_walk(face)[i]).0 < m0.nh()
            && m0.half_edges@[m0.face_walk(face)[i].0 as int].face.0 == face,
        m0.face_walk(face).len() <= m0.nh(),
{
    let c = m0.face_walk(face);
    let m = c.len() as int;
    let g0 = m0.nf();
    m0.lemma_walk_same_face(c, m0.faces@[face].half_edge, m0.nh() + 1);
    lemma_distinct_len(m0, c);
    assert(m0.face_ok(face));
    assert forall|i: int| 0 <= i < m implies (#[trigger] fan_face(face, g0, i)).0 < m1.nf() && m1.faces@[fan_face(face, g0, i).0 as int].valid by {
        if i > 0 {
            let _ = m1.faces@[g0 + i - 1];
        }
    }
}

/// The new half-edge `p -> v_i` is good after the fan.
proof fn lemma_fan_spoke_out(m0: HalfEdgeMesh, m1: HalfEdgeMesh, face: int, position: glam::Vec3, uv: glam::Vec2, i: int)
    requires
        fan_pre(m0, m1, face, position, uv),
        0 <= i < m0.face_walk(face).len(),
    ensures
        he_good(m1, m0.nh() + i),
{
    let c = m0.face_walk(face);
    let m = c.len() as int;
    let n0 = m0.nh();
    let g0 = m0.nf();
    lemma_fan_basics(m0, m1, face, position, uv);
    let h = n0 + i;
    let x = m1.half_edges@[n0 + i];
    let _ = m1.half_edges@[c[i].0 as int];
    let s = cyc_succ(i, m);
    let _ = m1.half_edges@[n0 + m + s];
    let _ = m1.half_edges@[n0 + m + i];
    let _ = fan_face(face, g0, i);
    assert(m1.half_edges@[x.next.0 as int].prev.0 == h);
    assert(m1.half_edges@[x.prev.0 as int].next.0 == h);
}

/// The new half-edge `v_i -> p` is good after the fan.
proof fn lemma_fan_spoke_in(m0: HalfEdgeMesh, m1: HalfEdgeMesh, face: int, position: glam::Vec3, uv: glam::Vec2, i: int)
    requires
        fan_pre(m0, m1, face, position, uv),
        0 <= i < m0.face_walk(face).len(),
    ensures
        he_good(m1, m0.nh() + m0.face_walk(face).len() + i),
{
    let c = m0.face_walk(face);
    let m = c.len() as int;
    let n0 = m0.nh();
    let g0 = m0.nf();
    lemma_fan_basics(m0, m1, face, position, uv);
    let h = n0 + m + i;
    let x = m1.half_edges@[n0 + m + i];
    let q = cyc_pred(i, m);
    let _ = m1.half_edges@[n0 + q];
    let _ = m1.half_edges@[c[q].0 as int];
    let _ = m1.half_edges@[n0 + i];
    let _ = m0.half_edges@[c[i].0 as int];
    let _ = fan_face(face, g0, q);
    assert(m1.half_edges@[x.next.0 as int].prev.0 == h);
    assert(m1.half_edges@[x.prev.0 as int].next.0 == h);
}

/// The twin of an old half-edge keeps pointing back after the fan.
proof fn lemma_fan_twin(m0: HalfEdgeMesh, m1: HalfEdgeMesh, face: int, position: glam::Vec3, uv: glam::Vec2, t: int)
    requires
        fan_pre(m0, m1, face, position, uv),
        0 <= t < m0.nh(),
    ensures
        m1.half_edges@[t].twin == m0.half_edges@[t].twin,
{
    let c = m0.face_walk(face);
    let m = c.len() as int;
    if c.contains(HalfEdgeId(t as usize)) {
        let j = choose|j: int| 0 <= j < m && c[j] == HalfEdgeId(t as usize);
        let _ = m1.half_edges@[c[j].0 as int];
    } else {
        let _ = m1.half_edges@[t];
    }
}

/// An old half-edge on the fanned face is good after the fan.
proof fn lemma_fan_rim(m0: HalfEdgeMesh, m1: HalfEdgeMesh, face: int, position: glam::Vec3, uv: glam::Vec2, i: int)
    requires
        fan_pre(m0, m1, face, position, uv),
        0 <= i < m0.face_walk(face).len(),
    ensures
        he_good(m1, m0.face_walk(face)[i].0 as int),
{
    let c = m0.face_walk(face);
    let m = c.len() as int;
    let n0 = m0.nh();
    let g0 = m0.nf();
    lemma_fan_basics(m0, m1, face, position, uv);
    let h = c[i].0 as int;
    let e = m0.half_edges@[h];
    assert(m0.link_ok(h));
    if e.twin.0 != usize::MAX {
        lemma_fan_twin(m0, m1, face, position, uv, e.twin.0 as int);
    }
    let x = m1.half_edges@[c[i].0 as int];
    let s = cyc_succ(i, m);
    let _ = m1.half_edges@[n0 + m + s];
    let _ = m1.half_edges@[n0 + i];
    assert(cyc_pred(s, m) == i);
    assert(m1.half_edges@[x.next.0 as int].prev.0 == h);
    assert(m1.half_edges@[x.prev.0 as int].next.0 == h);
    assert(m1.half_edges@[x.next.0 as int].face == x.face);
    let _ = fan_face(face, g0, i);
}

/// An old half-edge off the fanned face is good after the fan.
proof fn lemma_fan_other(m0: HalfEdgeMesh, m1: HalfEdgeMesh, face: int, position: glam::Vec3, uv: glam::Vec2, h: int)
    requires
        fan_pre(m0, m1, face, position, uv),
        0 <= h < m0.nh(),
        !m0.face_walk(face).contains(HalfEdgeId(h as usize)),
    ensures
        he_good(m1, h),
{
    let c = m0.face_walk(face);
    let n0 = m0.nh();
    m0.lemma_cycle_neighbours(c);
    let e = m0.half_edges@[h];
    assert(m0.link_ok(h));
    if e.twin.0 != usize::MAX {
        lemma_fan_twin(m0, m1, face, position, uv, e.twin.0 as int);
        assert(m0.link_ok(e.twin.0 as int));
    }
    assert(m1.half_edges@[h] == e);
    let nx = e.next;
    let pv = e.prev;
    assert(m0.next_of(HalfEdgeId(h as usize)) == nx);
    assert(m0.prev_of(HalfEdgeId(h as usize)) == pv);
    assert(!c.contains(nx));
    assert(!c.contains(pv));
    assert(HalfEdgeId(nx.0 as int as usize) == nx);
    assert(HalfEdgeId(pv.0 as int as usize) == pv);
    assert(m1.half_edges@[nx.0 as int] == m0.half_edges@[nx.0 as int]);
    assert(m1.half_edges@[pv.0 as int] == m0.half_edges@[pv.0 as int]);
    let f = e.face.0 as int;
    if f != face {
        assert(m1.faces@[f] == m0.faces@[f]);
    }
}

/// Fanning a face of a well-formed mesh around a new vertex keeps it well-formed.
pub proof fn lemma_fan_wf(m0: HalfEdgeMesh, m1: HalfEdgeMesh, face: int, position: glam::Vec3, uv: glam::Vec2)
    requires
        fan_pre(m0, m1, face, position, uv),
    ensures
        m1.wf(),
{
    let c = m0.face_walk(face);
    let m = c.len() as int;
    let n0 = m0.nh();
    let g0 = m0.nf();
    lemma_fan_basics(m0, m1, face, position, uv);
    assert forall|h: int| 0 <= h < m1.nh() implies #[trigger] he_good(m1, h) by {
        if h < n0 {
            if c.contains(HalfEdgeId(h as usize)) {
                let i = choose|i: int| 0 <= i < m && c[i] == HalfEdgeId(h as usize);
                lemma_fan_rim(m0, m1, face, position, uv, i);
            } else {
                lemma_fan_other(m0, m1, face, position, uv, h);
            }
        } else if h < n0 + m {
            lemma_fan_spoke_out(m0, m1, face, position, uv, h - n0);
        } else {
            lemma_fan_spoke_in(m0, m1, face, position, uv, h - n0 - m);
        }
    }
    assert forall|h: int| 0 <= h < m1.nh() implies (#[trigger] m1.half_edges@[h]).next.0 < m1.nh() by {
        assert(he_good(m1, h));
    }
    assert forall|h: int| 0 <= h < m1.nh() implies #[trigger] m1.link_ok(h) by {
        assert(he_good(m1, h));
    }
    assert forall|h: int| 0 <= h < m1.nh() implies {
        &&& (#[trigger] m1.half_edges@[h]).prev.0 < m1.nh()
        &&& m1.half_edges@[h].origin.0 < m1.nv()
        &&& m1.half_edges@[h].face.0 < m1.nf()
        &&& (m1.half_edges@[h].twin.0 == usize::MAX || m1.half_edges@[h].twin.0 < m1.nh())
    } by {
        assert(he_good(m1, h));
    }
    lemma_fan_faces_vertices(m0, m1, face, position, uv);
}

proof fn lemma_fan_faces_vertices(m0: HalfEdgeMesh, m1: HalfEdgeMesh, face: int, position: glam::Vec3, uv: glam::Vec2)
    requires
        fan_pre(m0, m1, face, position, uv),
    ensures
        forall|f: int| 0 <= f < m1.nf() ==> (#[trigger] m1.faces@[f]).half_edge.0 < m1.nh(),
        forall|f: int| 0 <= f < m1.nf() ==> #[trigger] m1.face_ok(f),
        m1.outgoing_bounded(),
        forall|v: int| 0 <= v < m1.nv() ==> #[trigger] m1.vertex_ok(v),
{
    let c = m0.face_walk(face);
    let m = c.len() as int;
    let n0 = m0.nh();
    let g0 = m0.nf();
    lemma_fan_basics(m0, m1, face, position, uv);
    assert forall|f: int| 0 <= f < m1.nf() implies (#[trigger] m1.faces@[f]).half_edge.0 < m1.nh() && m1.face_ok(f) by {
        if f < g0 && f != face {
            assert(m0.face_ok(f));
            let hf = m0.faces@[f].half_edge;
            if m0.faces@[f].valid {
                assert(!c.contains(hf));
                assert(HalfEdgeId(hf.0 as int as usize) == hf);
                assert(m1.half_edges@[hf.0 as int] == m0.half_edges@[hf.0 as int]);
            }
        } else if f == face {
            let _ = m1.half_edges@[n0 + 0];
        } else {
            let i = f - g0 + 1;
            let _ = m1.faces@[g0 + i - 1];
            let _ = m1.half_edges@[n0 + i];
        }
    }
    assert forall|v: int| 0 <= v < m1.nv() implies ((#[trigger] m1.vertices@[v]).outgoing.0 == usize::MAX
        || m1.vertices@[v].outgoing.0 < m1.nh()) && m1.vertex_ok(v) by {
        if v < m0.nv() {
            let k = m0.last_origin_in(c, VertexId(v as usize), m);
            lemma_last_origin(m0, c, VertexId(v as usize), m);
            if k >= 0 {
                let _ = m1.half_edges@[c[k].0 as int];
            } else {
                assert(m0.vertex_ok(v));
                let o = m0.vertices@[v].outgoing;
                if o.0 != usize::MAX {
                    if c.contains(o) {
                        let j = choose|j: int| 0 <= j < m && c[j] == o;
                        let _ = m1.half_edges@[c[j].0 as int];
                    } else {
                        assert(HalfEdgeId(o.0 as int as usize) == o);
                        assert(m1.half_edges@[o.0 as int] == m0.half_edges@[o.0 as int]);
                    }
                }
            }
        } else {
            let _ = m1.half_edges@[n0 + 0];
        }
    }
}

impl HalfEdgeMesh {
    /// Adds a vertex inside `face` and replaces the face by a fan of
    /// triangles around it (see `fan_relation`). Returns the new vertex and,
    /// for each corner `v_i` of the face, the new half-edge `p -> v_i`.
    /// A face with fewer than three corners only gets the new vertex.
    #[verifier::rlimit(60)]
    pub fn insert_interior_vertex_fan(&mut self, face: FaceId, pos: glam::Vec3, uv: glam::Vec2) -> (r: (
        VertexId,
        Vec<HalfEdgeId>,
    ))
        requires
            old(self).wf(),
            face.0 < old(self).nf(),
            old(self).faces@[face.0 as int].valid,
            3 * old(self).nh() + 3 < usize::MAX,
            old(self).nf() + old(self).nh() + 1 < usize::MAX,
            old(self).nv() + 1 < usize::MAX,
        ensures
            final(self).wf(),
            r.0.0 == old(self).nv(),
            old(self).face_walk(face.0 as int).len() < 3 ==> {
                &&& final(self).vertices@ == old(self).vertices@.push(
                    HEVertex { position: pos, uv, outgoing: HalfEdgeId(usize::MAX) },
                )
                &&& final(self).half_edges@ == old(self).half_edges@
                &&& final(self).faces@ == old(self).faces@
                &&& r.1@.len() == 0
            },
            old(self).face_walk(face.0 as int).len() >= 3 ==> {
                &&& fan_relation(*old(self), *final(self), face.0 as int, pos, uv)
                &&& r.1@ == Seq::new(
                    old(self).face_walk(face.0 as int).len(),
                    |i: int| HalfEdgeId((old(self).nh() + i) as usize),
                )
            },
    {
        let ghost m0 = *self;
        let hes = self.face_half_edges(face);
        let m = hes.len();
        proof {
            assert(m0.face_ok(face.0 as int));
            m0.lemma_cycle_neighbours(hes@);
            lemma_distinct_len(m0, hes@);
        }
        let p = self.add_vertex(pos, uv);
        proof {
            lemma_add_vertex_wf(m0, *self, pos, uv);
            assert forall|k: int| 0 <= k < m implies (#[trigger] m0.half_edges@[hes@[k].0 as int]).origin.0 < m0.nv() by {
                let _ = m0.half_edges@[hes@[k].0 as int];
            }
        }
        if m < 3 {
            return (p, Vec::new());
        }
        let n0 = self.half_edges.len();
        let g0 = self.faces.len();
        let patch = self.faces[face.0].patch_index;
        let mut pe: Vec<HalfEdgeId> = Vec::new();
        let mut i: usize = 0;
        while i < m
            invariant
                m == hes@.len(),
                3 <= m <= n0,
                n0 == m0.nh(),
                g0 == m0.nf(),
                3 * n0 + 3 < usize::MAX,
                g0 + n0 + 1 < usize::MAX,
                i <= m,
                self.vertices@ == m0.vertices@.push(HEVertex { position: pos, uv, outgoing: HalfEdgeId(usize::MAX) }),
                self.faces@ == m0.faces@,
                self.nh() == n0 + i,
                p.0 == m0.nv(),
                forall|h: int| 0 <= h < n0 ==> #[trigger] self.half_edges@[h] == m0.half_edges@[h],
                forall|k: int|
                    0 <= k < i ==> #[trigger] self.half_edges@[n0 + k] == (HalfEdge {
                        origin: p,
                        twin: HalfEdgeId((n0 + m + k) as usize),
                        next: hes@[k],
                        prev: HalfEdgeId((n0 + m + cyc_succ(k, m as int)) as usize),
                        face: fan_face(face.0 as int, g0 as int, k),
                        cut: false,
                    }),
                pe@ == Seq::new(i as nat, |k: int| HalfEdgeId((n0 + k) as usize)),
            decreases m - i,
        {
            let succ = if i + 1 == m { 0 } else { i + 1 };
            let fi = if i == 0 { face } else { FaceId(g0 + i - 1) };
            self.half_edges.push(HalfEdge {
                origin: p,
                twin: HalfEdgeId(n0 + m + i),
                next: hes[i],
                prev: HalfEdgeId(n0 + m + succ),
                face: fi,
                cut: false,
            });
            pe.push(HalfEdgeId(n0 + i));
            proof {
                assert(pe@ =~= Seq::new((i + 1) as nat, |k: int| HalfEdgeId((n0 + k) as usize)));
            }
            i = i + 1;
        }
        let mut i: usize = 0;
        while i < m
            invariant
                m == hes@.len(),
                forall|k: int| 0 <= k < hes@.len() ==> (#[trigger] hes@[k]).0 < m0.nh(),
                3 <= m <= n0,
                n0 == m0.nh(),
                g0 == m0.nf(),
                3 * n0 + 3 < usize::MAX,
                g0 + n0 + 1 < usize::MAX,
                i <= m,
                self.vertices@ == m0.vertices@.push(HEVertex { position: pos, uv, outgoing: HalfEdgeId(usize::MAX) }),
                self.faces@ == m0.faces@,
                self.nh() == n0 + m + i,
                p.0 == m0.nv(),
                forall|h: int| 0 <= h < n0 ==> #[trigger] self.half_edges@[h] == m0.half_edges@[h],
                forall|k: int|
                    0 <= k < m ==> #[trigger] self.half_edges@[n0 + k] == (HalfEdge {
                        origin: p,
                        twin: HalfEdgeId((n0 + m + k) as usize),
                        next: hes@[k],
                        prev: HalfEdgeId((n0 + m + cyc_succ(k, m as int)) as usize),
                        face: fan_face(face.0 as int, g0 as int, k),
                        cut: false,
                    }),
                forall|k: int|
                    0 <= k < i ==> #[trigger] self.half_edges@[n0 + m + k] == (HalfEdge {
                        origin: m0.half_edges@[hes@[k].0 as int].origin,
                        twin: HalfEdgeId((n0 + k) as usize),
                        next: HalfEdgeId((n0 + cyc_pred(k, m as int)) as usize),
                        prev: hes@[cyc_pred(k, m as int)],
                        face: fan_face(face.0 as int, g0 as int, cyc_pred(k, m as int)),
                        cut: false,
                    }),
            decreases m - i,
        {
            let pred = if i == 0 { m - 1 } else { i - 1 };
            let fp = if pred == 0 { face } else { FaceId(g0 + pred - 1) };
            let orig = self.half_edges[hes[i].0].origin;
            self.half_edges.push(HalfEdge {
                origin: orig,
                twin: HalfEdgeId(n0 + i),
                next: HalfEdgeId(n0 + pred),
                prev: hes[pred],
                face: fp,
                cut: false,
            });
            i = i + 1;
        }
        let ghost hs = self.half_edges@;
        let mut i: usize = 1;
        while i < m
            invariant
                self.half_edges@ == hs,
                m == hes@.len(),
                3 <= m <= n0,
                n0 == m0.nh(),
                g0 == m0.nf(),
                g0 + n0 + 1 < usize::MAX,
                3 * n0 + 3 < usize::MAX,
                1 <= i <= m,
                self.vertices@ == m0.vertices@.push(HEVertex { position: pos, uv, outgoing: HalfEdgeId(usize::MAX) }),
                self.nf() == g0 + i - 1,
                self.nh() == n0 + 2 * m,
                forall|f: int| 0 <= f < g0 ==> #[trigger] self.faces@[f] == m0.faces@[f],
                forall|k: int|
                    1 <= k < i ==> #[trigger] self.faces@[g0 + k - 1] == (HEFace {
                        half_edge: HalfEdgeId((n0 + k) as usize),
                        valid: true,
                        patch_index: patch,
                        component_id: None,
                    }),
            decreases m - i,
        {
            self.faces.push(HEFace { half_edge: HalfEdgeId(n0 + i), valid: true, patch_index: patch, component_id: None });
            i = i + 1;
        }
        self.set_face_half_edge(face.0, HalfEdgeId(n0));
        let ghost mid = *self;
        let mut i: usize = 0;
        while i < m
            invariant
                m == hes@.len(),
                forall|k: int| 0 <= k < hes@.len() ==> (#[trigger] hes@[k]).0 < m0.nh(),
                hes@.no_duplicates(),
                3 <= m <= n0,
                n0 == m0.nh(),
                g0 == m0.nf(),
                3 * n0 + 3 < usize::MAX,
                g0 + n0 + 1 < usize::MAX,
                i <= m,
                self.vertices@ == mid.vertices@,
                mid.vertices@ == m0.vertices@.push(HEVertex { position: pos, uv, outgoing: HalfEdgeId(usize::MAX) }),
                self.faces@ == mid.faces@,
                self.nh() == mid.nh(),
                mid.nh() == n0 + 2 * m,
                forall|h: int|
                    0 <= h < mid.nh() && (forall|k: int| 0 <= k < i ==> hes@[k].0 != h) ==> #[trigger] self.half_edges@[h]
                        == mid.half_edges@[h],
                forall|k: int|
                    0 <= k < i ==> #[trigger] self.half_edges@[hes@[k].0 as int] == (HalfEdge {
                        next: HalfEdgeId((n0 + m + cyc_succ(k, m as int)) as usize),
                        prev: HalfEdgeId((n0 + k) as usize),
                        face: fan_face(face.0 as int, g0 as int, k),
                        ..mid.half_edges@[hes@[k].0 as int]
                    }),
            decreases m - i,
        {
            let succ = if i + 1 == m { 0 } else { i + 1 };
            let fi = if i == 0 { face } else { FaceId(g0 + i - 1) };
            let h = hes[i].0;
            self.set_next(h, HalfEdgeId(n0 + m + succ));
            self.set_prev(h, HalfEdgeId(n0 + i));
            self.set_face_of(h, fi);
            proof {
                assert forall|k: int| 0 <= k < i implies hes@[k].0 != h by {
                    assert(hes@[k] != hes@[i as int]);
                }
            }
            i = i + 1;
        }
        self.set_outgoing(p.0, HalfEdgeId(n0));
        let ghost mid2 = *self;
        proof {
            assert forall|k: int| 0 <= k < m implies #[trigger] self.half_edges@[hes@[k].0 as int].origin == m0.half_edges@[hes@[k].0 as int].origin by {
                assert(mid.half_edges@[hes@[k].0 as int] == m0.half_edges@[hes@[k].0 as int]);
            }
            assert forall|v: int| 0 <= v < m0.nv() implies (#[trigger] self.vertices@[v]) == m0.vertices@[v] by {
                assert(mid.vertices@[v] == m0.vertices@[v]);
            }
        }
        let mut i: usize = 0;
        while i < m
            invariant
                m == hes@.len(),
                forall|k: int| 0 <= k < hes@.len() ==> (#[trigger] hes@[k]).0 < m0.nh(),
                3 <= m <= n0,
                n0 == m0.nh(),
                i <= m,
                self.half_edges@ == mid2.half_edges@,
                m0.nv() + 1 < usize::MAX,
                mid2.nh() == n0 + 2 * m,
                self.faces@ == mid2.faces@,
                self.vertices@.len() == mid2.vertices@.len(),
                mid2.vertices@.len() == m0.nv() + 1,
                self.vertices@[m0.nv() as int] == mid2.vertices@[m0.nv() as int],
                forall|k: int| 0 <= k < m ==> #[trigger] self.half_edges@[hes@[k].0 as int].origin == m0.half_edges@[hes@[k].0 as int].origin,
                forall|k: int| 0 <= k < m ==> (#[trigger] m0.half_edges@[hes@[k].0 as int]).origin.0 < m0.nv(),
                forall|v: int| 0 <= v < m0.nv() ==> (#[trigger] self.vertices@[v]) == if m0.last_origin_in(
                    hes@,
                    VertexId(v as usize),
                    i as int,
                ) >= 0 {
                    (HEVertex { outgoing: hes@[m0.last_origin_in(hes@, VertexId(v as usize), i as int)], ..m0.vertices@[v] })
                } else {
                    m0.vertices@[v]
                },
            decreases m - i,
        {
            let v = self.half_edges[hes[i].0].origin.0;
            self.set_outgoing(v, hes[i]);
            proof {
                assert(m0.half_edges@[hes@[i as int].0 as int].origin.0 == v);
                assert(m0.last_origin_in(hes@, VertexId(v), i + 1) == i);
                assert forall|w: int| 0 <= w < m0.nv() && w != v implies #[trigger] m0.last_origin_in(hes@, VertexId(w as usize), i + 1)
                    == m0.last_origin_in(hes@, VertexId(w as usize), i as int) by {
                    assert((w as usize) as int == w);
                    assert(m0.half_edges@[hes@[i as int].0 as int].origin.0 != (w as usize));
                }
            }
            i = i + 1;
        }
        proof {
            lemma_fan_wf(m0, *self, face.0 as int, pos, uv);
        }
        (p, pe)
    }
}

} // verus!
