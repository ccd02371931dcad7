//! Flipping the edge shared by two triangles.
use vstd::prelude::*;
use crate::mesh::fan::he_good;
use crate::mesh::half_edge::{none_id, FaceId, HEFace, HEVertex, HalfEdge, HalfEdgeId, HalfEdgeMesh, VertexId};

verus! {

impl HalfEdgeMesh {
    /// The cycle through `h` is a triangle: three steps of `next` return to
    /// `h` and no shorter walk does.
    pub open spec fn is_triangle_at(&self, h: HalfEdgeId) -> bool {
        let n1 = self.next_of(h);
        let n2 = self.next_of(n1);
        &&& n1 != h
        &&& n2 != h
        &&& self.next_of(n2) == h
    }

    /// The four corners `(a, b, c, d)` around the edge of `h`: `h` runs
    /// `a -> b` in triangle `(a, b, c)`, its twin runs `b -> a` in triangle
    /// `(b, a, d)`.
    pub open spec fn flip_corners(&self, h: int) -> (VertexId, VertexId, VertexId, VertexId) {
        let e = self.half_edges@[h];
        let te = self.half_edges@[e.twin.0 as int];
        (
            e.origin,
            te.origin,
            self.half_edges@[e.prev.0 as int].origin,
            self.half_edges@[te.prev.0 as int].origin,
        )
    }

    /// Parameter coordinates of the four corners, in the order `(a, b, c, d)`.
    pub open spec fn flip_uvs(&self, h: int) -> (glam::Vec2, glam::Vec2, glam::Vec2, glam::Vec2) {
        let (a, b, c, d) = self.flip_corners(h);
        (
            self.vertices@[a.0 as int].uv,
            self.vertices@[b.0 as int].uv,
            self.vertices@[c.0 as int].uv,
            self.vertices@[d.0 as int].uv,
        )
    }

    /// The edge of `h` can be flipped as far as the mesh's topology goes: it
    /// has a twin, both faces are triangles (walked from the face and from
    /// the edge itself), the twin runs the other way, the opposite corners
    /// `c` and `d` differ and are not already joined by an edge.
    pub open spec fn flip_possible(&self, h: int) -> bool {
        let e = self.half_edges@[h];
        let te = self.half_edges@[e.twin.0 as int];
        let (a, b, c, d) = self.flip_corners(h);
        &&& e.twin.0 != none_id()
        &&& self.face_walk(e.face.0 as int).len() == 3
        &&& self.face_walk(te.face.0 as int).len() == 3
        &&& self.is_triangle_at(HalfEdgeId(h as usize))
        &&& self.is_triangle_at(e.twin)
        &&& self.half_edges@[te.next.0 as int].origin == a
        &&& self.half_edges@[e.next.0 as int].origin == b
        &&& c != d
        &&& !self.connected(c, d)
    }
}

/// Relation between the mesh before (`m0`) and after (`m1`) flipping the
/// edge of `h`. With `t` its twin, triangles `h: a->b, n1: b->c, p1: c->a`
/// and `t: b->a, n2: a->d, p2: d->b` become `n2: a->d, h: d->c, p1: c->a`
/// (face of `h`) and `n1: b->c, t: c->d, p2: d->b` (face of `t`). The faces
/// name `h` and `t`; `a` and `b` get `n2` and `n1` as outgoing half-edges
/// where they had `h` and `t`. Nothing else changes.
pub open spec fn flip_relation(m0: HalfEdgeMesh, m1: HalfEdgeMesh, h: int) -> bool {
    let e = m0.half_edges@[h];
    let t = e.twin.0 as int;
    let te = m0.half_edges@[t];
    let n1 = e.next.0 as int;
    let p1 = e.prev.0 as int;
    let n2 = te.next.0 as int;
    let p2 = te.prev.0 as int;
    let (a, b, c, d) = m0.flip_corners(h);
    let f1 = e.face;
    let f2 = te.face;
    &&& m1.nv() == m0.nv()
    &&& m1.nh() == m0.nh()
    &&& m1.nf() == m0.nf()
    &&& forall|v: int|
        0 <= v < m0.nv() ==> #[trigger] m1.vertices@[v] == if v == a.0 && m0.vertices@[v].outgoing.0 == h {
            HEVertex { outgoing: HalfEdgeId(n2 as usize), ..m0.vertices@[v] }
        } else if v == b.0 && m0.vertices@[v].outgoing.0 == t {
            HEVertex { outgoing: HalfEdgeId(n1 as usize), ..m0.vertices@[v] }
        } else {
            m0.vertices@[v]
        }
    &&& forall|f: int|
        0 <= f < m0.nf() ==> #[trigger] m1.faces@[f] == if f == f2.0 {
            HEFace { half_edge: HalfEdgeId(t as usize), ..m0.faces@[f] }
        } else if f == f1.0 {
            HEFace { half_edge: HalfEdgeId(h as usize), ..m0.faces@[f] }
        } else {
            m0.faces@[f]
        }
    &&& m1.half_edges@[h] == HalfEdge { origin: d, next: HalfEdgeId(p1 as usize), prev: HalfEdgeId(n2 as usize), ..e }
    &&& m1.half_edges@[p1] == HalfEdge { next: HalfEdgeId(n2 as usize), prev: HalfEdgeId(h as usize), ..m0.half_edges@[p1] }
    &&& m1.half_edges@[n2] == HalfEdge { next: HalfEdgeId(h as usize), prev: HalfEdgeId(p1 as usize), face: f1, ..m0.half_edges@[n2] }
    &&& m1.half_edges@[t] == HalfEdge { origin: c, next: HalfEdgeId(p2 as usize), prev: HalfEdgeId(n1 as usize), ..te }
    &&& m1.half_edges@[n1] == HalfEdge { next: HalfEdgeId(t as usize), prev: HalfEdgeId(p2 as usize), face: f2, ..m0.half_edges@[n1] }
    &&& m1.half_edges@[p2] == HalfEdge { next: HalfEdgeId(n1 as usize), prev: HalfEdgeId(t as usize), ..m0.half_edges@[p2] }
    &&& forall|x: int|
        0 <= x < m0.nh() && x != h && x != t && x != n1 && x != p1 && x != n2 && x != p2 ==> #[trigger] m1.half_edges@[x]
            == m0.half_edges@[x]
}

/// The six half-edges of the two triangles around the edge of `h` are
/// distinct and closed under `next` and `prev`.
proof fn lemma_flip_six(m0: HalfEdgeMesh, h: int)
    requires
        m0.wf(),
        0 <= h < m0.nh(),
        m0.flip_possible(h),
    ensures
        ({
            let e = m0.half_edges@[h];
            let t = e.twin.0 as int;
            let te = m0.half_edges@[t];
            let n1 = e.next.0 as int;
            let p1 = e.prev.0 as int;
            let n2 = te.next.0 as int;
            let p2 = te.prev.0 as int;
            &&& 0 <= t < m0.nh()
            &&& h != t && h != n1 && h != p1 && h != n2 && h != p2
            &&& t != n1 && t != p1 && t != n2 && t != p2
            &&& n1 != p1 && n1 != n2 && n1 != p2
            &&& p1 != n2 && p1 != p2
            &&& n2 != p2
            &&& m0.half_edges@[n1].next.0 == p1 && m0.half_edges@[p1].next.0 == h
            &&& m0.half_edges@[n1].prev.0 == h && m0.half_edges@[p1].prev.0 == n1
            &&& m0.half_edges@[n2].next.0 == p2 && m0.half_edges@[p2].next.0 == t
            &&& m0.half_edges@[n2].prev.0 == t && m0.half_edges@[p2].prev.0 == n2
            &&& m0.half_edges@[n1].face == e.face && m0.half_edges@[p1].face == e.face
            &&& m0.half_edges@[n2].face == te.face && m0.half_edges@[p2].face == te.face
            &&& te.twin.0 == h
        }),
{
    let e = m0.half_edges@[h];
    let t = e.twin.0 as int;
    let te = m0.half_edges@[t];
    let n1 = e.next.0 as int;
    let p1 = e.prev.0 as int;
    let n2 = te.next.0 as int;
    let p2 = te.prev.0 as int;
    assert(m0.link_ok(h));
    assert(m0.link_ok(t));
    assert(m0.link_ok(n1));
    assert(m0.link_ok(p1));
    assert(m0.link_ok(n2));
    assert(m0.link_ok(p2));
    let _ = m0.half_edges@[n1];
    let _ = m0.half_edges@[n2];
    let x1 = m0.half_edges@[n1].next.0 as int;
    let x2 = m0.half_edges@[n2].next.0 as int;
    assert(m0.link_ok(x1));
    assert(m0.link_ok(x2));
    assert(m0.half_edges@[h].prev.0 == x1);
    assert(m0.half_edges@[t].prev.0 == x2);
    let (a, b, c, d) = m0.flip_corners(h);
    // The two triangles share no half-edge: otherwise c == d.
    if t == n1 || t == p1 || n2 == h || n2 == n1 || n2 == p1 || p2 == h || p2 == n1 || p2 == p1 {
        assert(c == d);
    }
}

/// A half-edge outside the two flipped triangles is still good.
proof fn lemma_flip_he_other(m0: HalfEdgeMesh, m1: HalfEdgeMesh, h: int, x: int)
    requires
        m0.wf(),
        0 <= h < m0.nh(),
        m0.flip_possible(h),
        flip_relation(m0, m1, h),
        0 <= x < m0.nh(),
        ({
            let e = m0.half_edges@[h];
            let te = m0.half_edges@[e.twin.0 as int];
            x != h && x != e.twin.0 && x != e.next.0 && x != e.prev.0 && x != te.next.0 && x != te.prev.0
        }),
    ensures
        he_good(m1, x),
{
    let e = m0.half_edges@[h];
    let t = e.twin.0 as int;
    let te = m0.half_edges@[t];
    let n1 = e.next.0 as int;
    let p1 = e.prev.0 as int;
    let n2 = te.next.0 as int;
    let p2 = te.prev.0 as int;
    let f1 = e.face.0 as int;
    let f2 = te.face.0 as int;
    lemma_flip_six(m0, h);
    let six = |z: int| z == h || z == t || z == n1 || z == p1 || z == n2 || z == p2;
    let y = m0.half_edges@[x];
    assert(m0.link_ok(x));
    assert(m1.half_edges@[x] == y);
    if y.twin.0 != none_id() {
        let tw = y.twin.0 as int;
        assert(m0.link_ok(tw));
        let _ = m1.half_edges@[tw];
        assert(m1.half_edges@[tw].twin == m0.half_edges@[tw].twin);
    }
    let nx = y.next.0 as int;
    let pv = y.prev.0 as int;
    assert(m0.link_ok(nx));
    assert(m0.link_ok(pv));
    assert(!six(nx));
    assert(!six(pv));
    let _ = m1.half_edges@[nx];
    let _ = m1.half_edges@[pv];
    let _ = m1.faces@[y.face.0 as int];
}

/// Each of the six half-edges of the two flipped triangles is good.
proof fn lemma_flip_he_six(m0: HalfEdgeMesh, m1: HalfEdgeMesh, h: int, x: int)
    requires
        m0.wf(),
        0 <= h < m0.nh(),
        m0.flip_possible(h),
        flip_relation(m0, m1, h),
        ({
            let e = m0.half_edges@[h];
            let te = m0.half_edges@[e.twin.0 as int];
            x == h || x == e.twin.0 || x == e.next.0 || x == e.prev.0 || x == te.next.0 || x == te.prev.0
        }),
    ensures
        he_good(m1, x),
{
    let e = m0.half_edges@[h];
    let t = e.twin.0 as int;
    let te = m0.half_edges@[t];
    let n1 = e.next.0 as int;
    let p1 = e.prev.0 as int;
    let n2 = te.next.0 as int;
    let p2 = te.prev.0 as int;
    let f1 = e.face.0 as int;
    let f2 = te.face.0 as int;
    lemma_flip_six(m0, h);
    assert(m0.link_ok(h));
    assert(m0.link_ok(t));
    assert(m0.link_ok(x));
    let y = m0.half_edges@[x];
    if y.twin.0 != none_id() {
        let tw = y.twin.0 as int;
        assert(m0.link_ok(tw));
        let _ = m1.half_edges@[tw];
        assert(m1.half_edges@[tw].twin == m0.half_edges@[tw].twin);
    }
    let _ = m0.half_edges@[p1];
    let _ = m0.half_edges@[p2];
    let _ = m0.half_edges@[n1];
    let _ = m0.half_edges@[n2];
    let _ = m1.faces@[f1];
    let _ = m1.faces@[f2];
    assert(m1.faces@[f1].valid);
    assert(m1.faces@[f2].valid);
    let z = m1.half_edges@[x];
    assert(m1.half_edges@[z.next.0 as int].prev.0 == x);
    assert(m1.half_edges@[z.prev.0 as int].next.0 == x);
    assert(m1.half_edges@[z.next.0 as int].face == z.face);
}

/// Flipping an edge keeps a well-formed mesh well-formed.
pub proof fn lemma_flip_wf(m0: HalfEdgeMesh, m1: HalfEdgeMesh, h: int)
    requires
        m0.wf(),
        0 <= h < m0.nh(),
        m0.flip_possible(h),
        flip_relation(m0, m1, h),
    ensures
        m1.wf(),
{
    let e = m0.half_edges@[h];
    let t = e.twin.0 as int;
    let te = m0.half_edges@[t];
    let n1 = e.next.0 as int;
    let p1 = e.prev.0 as int;
    let n2 = te.next.0 as int;
    let p2 = te.prev.0 as int;
    let (a, b, c, d) = m0.flip_corners(h);
    let f1 = e.face.0 as int;
    let f2 = te.face.0 as int;
    lemma_flip_six(m0, h);
    let six = |x: int| x == h || x == t || x == n1 || x == p1 || x == n2 || x == p2;
    assert(m0.half_edges@[p1].origin == c);
    assert(m0.half_edges@[p2].origin == d);
    let _ = m0.half_edges@[p1];
    let _ = m0.half_edges@[p2];
    assert forall|x: int| 0 <= x < m1.nh() implies #[trigger] he_good(m1, x) by {
        if six(x) {
            lemma_flip_he_six(m0, m1, h, x);
        } else {
            lemma_flip_he_other(m0, m1, h, x);
        }
    }
    assert forall|x: int| 0 <= x < m1.nh() implies {
        &&& (#[trigger] m1.half_edges@[x]).prev.0 < m1.nh()
        &&& m1.half_edges@[x].origin.0 < m1.nv()
        &&& m1.half_edges@[x].face.0 < m1.nf()
        &&& (m1.half_edges@[x].twin.0 == none_id() || m1.half_edges@[x].twin.0 < m1.nh())
    } by {
        assert(he_good(m1, x));
    }
    assert forall|x: int| 0 <= x < m1.nh() implies (#[trigger] m1.half_edges@[x]).next.0 < m1.nh() by {
        assert(he_good(m1, x));
    }
    assert forall|x: int| 0 <= x < m1.nh() implies #[trigger] m1.link_ok(x) by {
        assert(he_good(m1, x));
    }
    assert forall|f: int| 0 <= f < m1.nf() implies (#[trigger] m1.faces@[f]).half_edge.0 < m1.nh() && m1.face_ok(f) by {
        assert(m0.face_ok(f));
        let hf = m0.faces@[f].half_edge.0 as int;
        if f != f1 && f != f2 && m0.faces@[f].valid {
            assert(!six(hf));
            let _ = m1.half_edges@[hf];
        }
        let _ = m1.half_edges@[h];
        let _ = m1.half_edges@[t];
    }
    assert forall|v: int| 0 <= v < m1.nv() implies ((#[trigger] m1.vertices@[v]).outgoing.0 == none_id()
        || m1.vertices@[v].outgoing.0 < m1.nh()) && m1.vertex_ok(v) by {
        assert(m0.vertex_ok(v));
        let o = m0.vertices@[v].outgoing.0 as int;
        if o != none_id() {
            let _ = m1.half_edges@[o];
            let _ = m1.half_edges@[n1];
            let _ = m1.half_edges@[n2];
        }
    }
}

impl HalfEdgeMesh {
    /// Flips the edge of `he_id` shared by two triangles: triangles
    /// `(a, b, c)` and `(b, a, d)` become `(a, d, c)` and `(b, c, d)` (see
    /// `flip_relation`). The flip happens when it is possible for the
    /// topology (`flip_possible`) and `convex` accepts the corners'
    /// parameter coordinates `(a, b, c, d)`; otherwise the mesh is left as it
    /// is. Returns whether the flip happened.
    pub fn flip_edge<F: Fn(glam::Vec2, glam::Vec2, glam::Vec2, glam::Vec2) -> bool>(
        &mut self,
        he_id: HalfEdgeId,
        convex: &F,
    ) -> (r: bool)
        requires
            old(self).wf(),
            he_id.0 < old(self).nh(),
            forall|x: (glam::Vec2, glam::Vec2, glam::Vec2, glam::Vec2)| #[trigger] convex.requires(x),
        ensures
            final(self).wf(),
            r ==> old(self).flip_possible(he_id.0 as int) && convex.ensures(old(self).flip_uvs(he_id.0 as int), true)
                && flip_relation(*old(self), *final(self), he_id.0 as int),
            !r ==> *final(self) == *old(self),
            !r && old(self).flip_possible(he_id.0 as int) ==> convex.ensures(old(self).flip_uvs(he_id.0 as int), false),
    {
        let ghost m0 = *self;
        let h = he_id.0;
        let twin_id = self.half_edges[h].twin;
        if twin_id.0 == usize::MAX {
            return false;
        }
        proof {
            assert(self.link_ok(h as int));
        }
        let t = twin_id.0;
        let face1 = self.half_edges[h].face;
        let face2 = self.half_edges[t].face;
        if self.face_half_edges(face1).len() != 3 {
            return false;
        }
        if self.face_half_edges(face2).len() != 3 {
            return false;
        }
        let a = self.half_edges[h].origin;
        let he_next = self.half_edges[h].next;
        let he_prev = self.half_edges[h].prev;
        let b = self.half_edges[t].origin;
        let twin_next = self.half_edges[t].next;
        let twin_prev = self.half_edges[t].prev;
        let c = self.half_edges[he_prev.0].origin;
        let d = self.half_edges[twin_prev.0].origin;
        // Both cycles through the edge must themselves be triangles whose
        // shared edge runs both ways.
        let n1n = self.half_edges[he_next.0].next;
        let n2n = self.half_edges[twin_next.0].next;
        if he_next.0 == h || n1n.0 == h || self.half_edges[n1n.0].next.0 != h {
            return false;
        }
        if twin_next.0 == t || n2n.0 == t || self.half_edges[n2n.0].next.0 != t {
            return false;
        }
        if self.half_edges[twin_next.0].origin != a || self.half_edges[he_next.0].origin != b {
            return false;
        }
        if c == d {
            return false;
        }
        if self.are_vertices_connected(c, d) {
            return false;
        }
        let uva = self.vertices[a.0].uv;
        let uvb = self.vertices[b.0].uv;
        let uvc = self.vertices[c.0].uv;
        let uvd = self.vertices[d.0].uv;
        proof {
            assert(self.flip_possible(h as int));
            assert((uva, uvb, uvc, uvd) == self.flip_uvs(h as int));
            lemma_flip_six(m0, h as int);
        }
        if !convex(uva, uvb, uvc, uvd) {
            return false;
        }
        self.set_origin(h, d);
        self.set_origin(t, c);
        self.set_next(h, he_prev);
        self.set_prev(h, twin_next);
        self.set_next(he_prev.0, twin_next);
        self.set_prev(he_prev.0, he_id);
        self.set_next(twin_next.0, he_id);
        self.set_prev(twin_next.0, he_prev);
        self.set_next(t, twin_prev);
        self.set_prev(t, he_next);
        self.set_next(he_next.0, twin_id);
        self.set_prev(he_next.0, twin_prev);
        self.set_next(twin_prev.0, he_next);
        self.set_prev(twin_prev.0, twin_id);
        self.set_face_of(twin_next.0, face1);
        self.set_face_of(he_next.0, face2);
        self.set_face_half_edge(face1.0, he_id);
        self.set_face_half_edge(face2.0, twin_id);
        if self.vertices[a.0].outgoing == he_id {
            self.set_outgoing(a.0, twin_next);
        }
        if self.vertices[b.0].outgoing == twin_id {
            self.set_outgoing(b.0, he_next);
        }
        proof {
            let m1 = *self;
            assert(m1.half_edges@[h as int] == HalfEdge { origin: d, next: he_prev, prev: twin_next, ..m0.half_edges@[h as int] });
            assert(flip_relation(m0, m1, h as int));
            lemma_flip_wf(m0, m1, h as int);
        }
        true
    }
}

} // verus!
