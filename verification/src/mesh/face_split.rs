//! Splitting a face along a diagonal between two of its corners.
use vstd::prelude::*;
use crate::mesh::half_edge::{FaceId, HEFace, HalfEdge, HalfEdgeId, HalfEdgeMesh, VertexId};

verus! {

/// Successor of position `j` on a cycle of length `m`.
pub open spec fn cyc_succ(j: int, m: int) -> int {
    if j + 1 == m {
        0
    } else {
        j + 1
    }
}

/// Predecessor of position `j` on a cycle of length `m`.
pub open spec fn cyc_pred(j: int, m: int) -> int {
    if j == 0 {
        m - 1
    } else {
        j - 1
    }
}

/// Position `j` lies on the cyclic run that starts at `from` and stops just
/// before `to`.
pub open spec fn in_run(j: int, from: int, to: int) -> bool {
    if from <= to {
        from <= j < to
    } else {
        j >= from || j < to
    }
}

impl HalfEdgeMesh {
    /// Position of the last of the first `k` half-edges of `c` that starts at
    /// `v`, or -1 when none does.
    pub open spec fn last_origin_in(&self, c: Seq<HalfEdgeId>, v: VertexId, k: int) -> int
        decreases k,
    {
        if k <= 0 {
            -1
        } else if self.half_edges@[c[k - 1].0 as int].origin == v {
            k - 1
        } else {
            self.last_origin_in(c, v, k - 1)
        }
    }

    /// `split_face(face, v_a, v_b, _)` leaves the mesh as it is: the corners
    /// coincide, one of them is not on the face, or they are already joined
    /// by an edge of the face.
    pub open spec fn split_face_refused(&self, face: int, va: VertexId, vb: VertexId) -> bool {
        let c = self.face_walk(face);
        let ia = self.last_origin_in(c, va, c.len() as int);
        let ib = self.last_origin_in(c, vb, c.len() as int);
        ||| va == vb
        ||| ia < 0
        ||| ib < 0
        ||| self.next_of(c[ia]) == c[ib]
        ||| self.next_of(c[ib]) == c[ia]
    }
}

/// Relation between the mesh before (`m0`) and after (`m1`) a face split
/// that took place. `c` is the face's cycle, `a` and `b` the positions on it
/// of the last half-edges leaving `v_a` and `v_b`. The new half-edge
/// `v_a -> v_b` (index `nh`) closes the part of the cycle from `b` up to `a`,
/// which keeps the face id; the new half-edge `v_b -> v_a` (index `nh + 1`)
/// closes the part from `a` up to `b`, which becomes the new face `nf`.
pub open spec fn split_face_relation(
    m0: HalfEdgeMesh,
    m1: HalfEdgeMesh,
    face: int,
    va: VertexId,
    vb: VertexId,
    cut_edge: bool,
) -> bool {
    let c = m0.face_walk(face);
    let m = c.len() as int;
    let a = m0.last_origin_in(c, va, m);
    let b = m0.last_origin_in(c, vb, m);
    let pa = cyc_pred(a, m);
    let pb = cyc_pred(b, m);
    let n0 = m0.nh();
    let g = m0.nf();
    &&& m1.vertices@ == m0.vertices@
    &&& m1.nf() == g + 1
    &&& m1.faces@[face] == HEFace { half_edge: HalfEdgeId(n0 as usize), ..m0.faces@[face] }
    &&& m1.faces@[g] == HEFace {
        half_edge: HalfEdgeId((n0 + 1) as usize),
        valid: true,
        patch_index: m0.faces@[face].patch_index,
        component_id: None,
    }
    &&& forall|f: int| 0 <= f < g && f != face ==> #[trigger] m1.faces@[f] == m0.faces@[f]
    &&& m1.nh() == n0 + 2
    &&& m1.half_edges@[n0] == HalfEdge {
        origin: va,
        twin: HalfEdgeId((n0 + 1) as usize),
        next: c[b],
        prev: c[pa],
        face: FaceId(face as usize),
        cut: cut_edge,
    }
    &&& m1.half_edges@[n0 + 1] == HalfEdge {
        origin: vb,
        twin: HalfEdgeId(n0 as usize),
        next: c[a],
        prev: c[pb],
        face: FaceId(g as usize),
        cut: cut_edge,
    }
    &&& forall|i: int|
        0 <= i < n0 ==> {
            let x = #[trigger] m1.half_edges@[i];
            let y = m0.half_edges@[i];
            &&& x.origin == y.origin
            &&& x.twin == y.twin
            &&& x.cut == y.cut
            &&& x.next.0 == if i == c[pa].0 {
                n0 as usize
            } else if i == c[pb].0 {
                (n0 + 1) as usize
            } else {
                y.next.0
            }
            &&& x.prev.0 == if i == c[b].0 {
                n0 as usize
            } else if i == c[a].0 {
                (n0 + 1) as usize
            } else {
                y.prev.0
            }
            &&& !c.contains(HalfEdgeId(i as usize)) ==> x.face == y.face
        }
    &&& forall|j: int|
        0 <= j < m ==> m1.half_edges@[(#[trigger] c[j]).0 as int].face == if in_run(j, b, a) {
            FaceId(face as usize)
        } else {
            FaceId(g as usize)
        }
}

/// Facts about `last_origin_in`: it is -1 or a position below `k` whose
/// half-edge starts at `v`.
pub proof fn lemma_last_origin(m: HalfEdgeMesh, c: Seq<HalfEdgeId>, v: VertexId, k: int)
    requires
        0 <= k <= c.len(),
    ensures
        -1 <= m.last_origin_in(c, v, k) < k,
        m.last_origin_in(c, v, k) >= 0 ==> m.half_edges@[c[m.last_origin_in(c, v, k)].0 as int].origin == v,
    decreases k,
{
    if k > 0 {
        lemma_last_origin(m, c, v, k - 1);
    }
}

/// `f`'s walk in `m` is the walk `face_half_edges` takes, and a cycle.
pub open spec fn walk_ok(m: HalfEdgeMesh, f: int) -> bool {
    &&& m.is_walk_from(m.face_walk(f), m.faces@[f].half_edge, m.nh() + 1)
    &&& m.is_cycle(m.face_walk(f))
}

/// Corners found along `c` depend only on the origins of `c`'s half-edges.
pub proof fn lemma_last_origin_same(m0: HalfEdgeMesh, m1: HalfEdgeMesh, c: Seq<HalfEdgeId>, v: VertexId, k: int)
    requires
        0 <= k <= c.len(),
        forall|j: int| 0 <= j < c.len() ==> m1.half_edges@[(#[trigger] c[j]).0 as int].origin == m0.half_edges@[c[j].0 as int].origin,
    ensures
        m1.last_origin_in(c, v, k) == m0.last_origin_in(c, v, k),
    decreases k,
{
    if k > 0 {
        lemma_last_origin_same(m0, m1, c, v, k - 1);
        let _ = c[k - 1];
    }
}

/// Face `f` has the same walk in `m1` as in `m0`, with the same corners and
/// links along it, and the same record; the walk is still a cycle.
pub open spec fn walk_kept(m0: HalfEdgeMesh, m1: HalfEdgeMesh, f: int) -> bool {
    &&& m1.face_walk(f) == m0.face_walk(f)
    &&& walk_ok(m1, f)
    &&& m1.faces@[f] == m0.faces@[f]
    &&& forall|j: int|
        0 <= j < m0.face_walk(f).len() ==> m1.half_edges@[(#[trigger] m0.face_walk(f)[j]).0 as int].origin
            == m0.half_edges@[m0.face_walk(f)[j].0 as int].origin && m1.next_of(m0.face_walk(f)[j]) == m0.next_of(
            m0.face_walk(f)[j],
        )
}

pub proof fn lemma_walk_kept_trans(m0: HalfEdgeMesh, m1: HalfEdgeMesh, m2: HalfEdgeMesh, f: int)
    requires
        walk_kept(m0, m1, f),
        walk_kept(m1, m2, f),
    ensures
        walk_kept(m0, m2, f),
{
    let c = m0.face_walk(f);
    assert forall|j: int| 0 <= j < c.len() implies m2.half_edges@[(#[trigger] c[j]).0 as int].origin
        == m0.half_edges@[c[j].0 as int].origin && m2.next_of(c[j]) == m0.next_of(c[j]) by {
        assert(m1.face_walk(f)[j] == c[j]);
    }
}

/// Splitting face `g` leaves the walk of every other valid face as it was,
/// with the corners and links along it.
pub proof fn lemma_split_face_keeps_other_walk(
    m0: HalfEdgeMesh,
    m1: HalfEdgeMesh,
    g: int,
    va: VertexId,
    vb: VertexId,
    cut_edge: bool,
    f: int,
)
    requires
        m0.wf(),
        0 <= g < m0.nf(),
        m0.faces@[g].valid,
        !m0.split_face_refused(g, va, vb),
        m0.is_walk_from(m0.face_walk(g), m0.faces@[g].half_edge, m0.nh() + 1),
        split_face_relation(m0, m1, g, va, vb, cut_edge),
        0 <= f < m0.nf(),
        f != g,
        m0.faces@[f].valid,
        walk_ok(m0, f),
    ensures
        walk_kept(m0, m1, f),
{
    let s = m0.face_walk(f);
    let c = m0.face_walk(g);
    let n = c.len() as int;
    let start_f = m0.faces@[f].half_edge;
    let start_g = m0.faces@[g].half_edge;
    assert(m0.face_ok(f));
    assert(m0.face_ok(g));
    m0.lemma_walk_same_face(s, start_f, m0.nh() + 1);
    m0.lemma_walk_same_face(c, start_g, m0.nh() + 1);
    let a = m0.last_origin_in(c, va, n);
    let b = m0.last_origin_in(c, vb, n);
    lemma_last_origin(m0, c, va, n);
    lemma_last_origin(m0, c, vb, n);
    let pa = cyc_pred(a, n);
    let pb = cyc_pred(b, n);
    assert(0 <= pa < n && 0 <= pb < n);
    assert(m0.half_edges@[c[pa].0 as int].face.0 == g);
    assert(m0.half_edges@[c[pb].0 as int].face.0 == g);
    assert(m1.faces@[f] == m0.faces@[f]);
    assert forall|j: int| 0 <= j < s.len() implies m1.half_edges@[(#[trigger] s[j]).0 as int].origin
        == m0.half_edges@[s[j].0 as int].origin && m1.next_of(s[j]) == m0.next_of(s[j]) by {
        assert(m0.half_edges@[s[j].0 as int].face.0 == f);
        let _ = m1.half_edges@[s[j].0 as int];
    }
    assert(m1.is_walk_from(s, m1.faces@[f].half_edge, m1.nh() + 1)) by {
        assert forall|i: int| 0 <= i < s.len() - 1 implies #[trigger] m1.next_of(s[i]) == s[i + 1] by {
            assert(m0.next_of(s[i]) == s[i + 1]);
        }
        assert(m1.next_of(s[s.len() - 1]) == m0.next_of(s[s.len() - 1]));
    }
    let w = m1.face_walk(f);
    assert(m1.is_walk_from(w, m1.faces@[f].half_edge, m1.nh() + 1));
    m1.lemma_walk_unique(w, s, m1.faces@[f].half_edge, m1.nh() + 1);
    assert forall|i: int| 0 <= i < s.len() - 1 implies #[trigger] m1.next_of(s[i]) == s[i + 1] by {
        assert(m0.next_of(s[i]) == s[i + 1]);
    }
    assert(m1.is_cycle(s));
}

/// A face split keeps a mesh well-formed.
pub proof fn lemma_split_face_wf(m0: HalfEdgeMesh, m1: HalfEdgeMesh, face: int, va: VertexId, vb: VertexId, cut_edge: bool)
    requires
        m0.wf(),
        0 <= face < m0.nf(),
        m0.faces@[face].valid,
        m0.nh() + 2 < usize::MAX,
        m0.nf() + 1 < usize::MAX,
        !m0.split_face_refused(face, va, vb),
        m0.is_cycle(m0.face_walk(face)),
        m0.is_walk_from(m0.face_walk(face), m0.faces@[face].half_edge, m0.nh() + 1),
        split_face_relation(m0, m1, face, va, vb, cut_edge),
    ensures
        m1.wf(),
{
    let c = m0.face_walk(face);
    let m = c.len() as int;
    let a = m0.last_origin_in(c, va, m);
    let b = m0.last_origin_in(c, vb, m);
    let pa = cyc_pred(a, m);
    let pb = cyc_pred(b, m);
    let n0 = m0.nh();
    let g = m0.nf();
    lemma_last_origin(m0, c, va, m);
    lemma_last_origin(m0, c, vb, m);
    m0.lemma_cycle_neighbours(c);
    m0.lemma_walk_same_face(c, m0.faces@[face].half_edge, m0.nh() + 1);
    assert(m0.face_ok(face));
    assert(a != b);
    assert(cyc_succ(a, m) != b) by {
        assert(m0.next_of(c[a]) == c[cyc_succ(a, m)]);
    }
    assert(cyc_succ(b, m) != a) by {
        assert(m0.next_of(c[b]) == c[cyc_succ(b, m)]);
    }
    assert(in_run(pa, b, a));
    assert(in_run(b, b, a));
    assert(!in_run(a, b, a));
    assert(!in_run(pb, b, a));
    assert(pa != pb);
    // face of every cycle member in m0
    assert forall|j: int| 0 <= j < m implies m0.half_edges@[(#[trigger] c[j]).0 as int].face.0 == face by {
    }
    let _ = m1.half_edges@[n0];
    let _ = m1.half_edges@[n0 + 1];
    // bounds
    assert forall|i: int| 0 <= i < m1.nh() implies (#[trigger] m1.half_edges@[i]).next.0 < m1.nh() by {
        if i < n0 {
            let _ = m0.half_edges@[i];
        }
    }
    assert forall|i: int| 0 <= i < m1.nh() implies {
        &&& (#[trigger] m1.half_edges@[i]).prev.0 < m1.nh()
        &&& m1.half_edges@[i].origin.0 < m1.nv()
        &&& m1.half_edges@[i].face.0 < m1.nf()
        &&& (m1.half_edges@[i].twin.0 == usize::MAX || m1.half_edges@[i].twin.0 < m1.nh())
    } by {
        if i < n0 {
            let _ = m0.half_edges@[i];
            if c.contains(HalfEdgeId(i as usize)) {
                let j = choose|j: int| 0 <= j < m && c[j] == HalfEdgeId(i as usize);
                let _ = m1.half_edges@[c[j].0 as int];
            }
        } else {
            let _ = m0.half_edges@[c[a].0 as int];
            let _ = m0.half_edges@[c[b].0 as int];
        }
    }
    assert forall|f: int| 0 <= f < m1.nf() implies (#[trigger] m1.faces@[f]).half_edge.0 < m1.nh() by {
        if f < g {
            let _ = m0.faces@[f];
        }
    }
    assert forall|w: int| 0 <= w < m1.nv() implies ((#[trigger] m1.vertices@[w]).outgoing.0 == usize::MAX
        || m1.vertices@[w].outgoing.0 < m1.nh()) by {
        let _ = m0.vertices@[w];
    }
    assert forall|i: int| 0 <= i < m1.nh() implies #[trigger] m1.link_ok(i) by {
        if i < n0 {
            assert(m0.link_ok(i));
            let y = m0.half_edges@[i];
            let x = m1.half_edges@[i];
            let hi = HalfEdgeId(i as usize);
            if y.twin.0 != usize::MAX {
                assert(m0.link_ok(y.twin.0 as int));
                let _ = m1.half_edges@[y.twin.0 as int];
            }
            if c.contains(hi) {
                let j = choose|j: int| 0 <= j < m && c[j] == hi;
                let sj = cyc_succ(j, m);
                let qj = cyc_pred(j, m);
                assert(m0.next_of(c[j]) == c[sj]);
                assert(m0.prev_of(c[j]) == c[qj]);
                let _ = m1.half_edges@[c[sj].0 as int];
                let _ = m1.half_edges@[c[qj].0 as int];
                if j == pa {
                    assert(x.next.0 == n0);
                } else if j == pb {
                    assert(x.next.0 == n0 + 1);
                } else {
                    assert(c[j] != c[pa]);
                    assert(c[j] != c[pb]);
                    assert(x.next == c[sj]);
                    assert(sj != a && sj != b);
                    assert(c[sj] != c[a] && c[sj] != c[b]);
                    assert(m1.half_edges@[c[sj].0 as int].prev.0 == i);
                    assert(in_run(sj, b, a) == in_run(j, b, a));
                }
                if j == b {
                    assert(x.prev.0 == n0);
                } else if j == a {
                    assert(x.prev.0 == n0 + 1);
                } else {
                    assert(c[j] != c[a]);
                    assert(c[j] != c[b]);
                    assert(x.prev == c[qj]);
                    assert(qj != pa && qj != pb);
                    assert(c[qj] != c[pa] && c[qj] != c[pb]);
                    assert(m1.half_edges@[c[qj].0 as int].next.0 == i);
                }
            } else {
                let nx = y.next;
                let pv = y.prev;
                assert(!c.contains(m0.next_of(hi)));
                assert(!c.contains(m0.prev_of(hi)));
                assert(hi != c[pa] && hi != c[pb] && hi != c[a] && hi != c[b]);
                assert(nx != c[a] && nx != c[b]);
                assert(pv != c[pa] && pv != c[pb]);
                let _ = m1.half_edges@[nx.0 as int];
                let _ = m1.half_edges@[pv.0 as int];
                assert(m1.half_edges@[nx.0 as int].face == m0.half_edges@[nx.0 as int].face);
            }
        } else if i == n0 {
            let _ = m1.half_edges@[c[b].0 as int];
            let _ = m1.half_edges@[c[pa].0 as int];
            assert(c[b] != c[a]);
            assert(c[pa] != c[pb]);
        } else {
            let _ = m1.half_edges@[c[a].0 as int];
            let _ = m1.half_edges@[c[pb].0 as int];
            assert(c[b] != c[a]);
            assert(c[pa] != c[pb]);
        }
    }
    assert forall|f: int| 0 <= f < m1.nf() implies #[trigger] m1.face_ok(f) by {
        if f < g && f != face {
            assert(m0.face_ok(f));
            let h0 = m0.faces@[f].half_edge;
            let _ = m1.half_edges@[h0.0 as int];
            if c.contains(h0) {
                let j = choose|j: int| 0 <= j < m && c[j] == h0;
                assert(m0.half_edges@[c[j].0 as int].face.0 == face);
            }
        }
    }
    assert forall|w: int| 0 <= w < m1.nv() implies #[trigger] m1.vertex_ok(w) by {
        assert(m0.vertex_ok(w));
        let o = m0.vertices@[w].outgoing.0;
        if o != usize::MAX {
            let _ = m1.half_edges@[o as int];
        }
    }
}

impl HalfEdgeMesh {
    /// Splits `face` along a new diagonal from `v_a` to `v_b` and returns the
    /// new face on the `v_b -> v_a` side; returns `face` itself when the split
    /// is refused (see `split_face_refused`). `cut_edge` marks the diagonal as
    /// lying on a cut curve.
    #[verifier::rlimit(40)]
    pub fn split_face(&mut self, face: FaceId, v_a: VertexId, v_b: VertexId, cut_edge: bool) -> (r: FaceId)
        requires
            old(self).wf(),
            face.0 < old(self).nf(),
            old(self).faces@[face.0 as int].valid,
            old(self).nh() + 2 < usize::MAX,
            old(self).nf() + 1 < usize::MAX,
        ensures
            final(self).wf(),
            old(self).split_face_refused(face.0 as int, v_a, v_b) ==> r == face && *final(self) == *old(self),
            !old(self).split_face_refused(face.0 as int, v_a, v_b) ==> r.0 == old(self).nf()
                && split_face_relation(*old(self), *final(self), face.0 as int, v_a, v_b, cut_edge),
    {
        let ghost m0 = *self;
        if v_a == v_b {
            return face;
        }
        let hes = self.face_half_edges(face);
        let m = hes.len();
        proof {
            assert(self.face_ok(face.0 as int));
        }
        let mut ia: usize = usize::MAX;
        let mut ib: usize = usize::MAX;
        let mut k: usize = 0;
        while k < m
            invariant
                m == hes@.len(),
                hes@ == m0.face_walk(face.0 as int),
                m0 == *self,
                m0.wf(),
                forall|i: int| 0 <= i < hes@.len() ==> (#[trigger] hes@[i]).0 < m0.nh(),
                k <= m,
                ia == usize::MAX <==> m0.last_origin_in(hes@, v_a, k as int) < 0,
                ia != usize::MAX ==> ia as int == m0.last_origin_in(hes@, v_a, k as int),
                ib == usize::MAX <==> m0.last_origin_in(hes@, v_b, k as int) < 0,
                ib != usize::MAX ==> ib as int == m0.last_origin_in(hes@, v_b, k as int),
                m0.last_origin_in(hes@, v_a, k as int) < k,
                m0.last_origin_in(hes@, v_b, k as int) < k,
                m0.last_origin_in(hes@, v_a, k as int) >= -1,
                m0.last_origin_in(hes@, v_b, k as int) >= -1,
            decreases m - k,
        {
            let orig = self.half_edges[hes[k].0].origin;
            if orig == v_a {
                ia = k;
            }
            if orig == v_b {
                ib = k;
            }
            k = k + 1;
        }
        if ia == usize::MAX || ib == usize::MAX {
            return face;
        }
        let he_a = hes[ia];
        let he_b = hes[ib];
        if self.half_edges[he_a.0].next == he_b || self.half_edges[he_b.0].next == he_a {
            return face;
        }
        let pa = if ia == 0 { m - 1 } else { ia - 1 };
        let pb = if ib == 0 { m - 1 } else { ib - 1 };
        let prev_he_a = hes[pa];
        let prev_he_b = hes[pb];
        let diag_ab = HalfEdgeId(self.half_edges.len());
        let diag_ba = HalfEdgeId(self.half_edges.len() + 1);
        let new_face_id = FaceId(self.faces.len());
        let patch = self.faces[face.0].patch_index;
        self.faces.push(HEFace { half_edge: diag_ba, valid: true, patch_index: patch, component_id: None });
        self.half_edges.push(HalfEdge {
            origin: v_a,
            twin: diag_ba,
            next: he_b,
            prev: prev_he_a,
            face,
            cut: cut_edge,
        });
        self.half_edges.push(HalfEdge {
            origin: v_b,
            twin: diag_ab,
            next: he_a,
            prev: prev_he_b,
            face: new_face_id,
            cut: cut_edge,
        });
        self.set_next(prev_he_a.0, diag_ab);
        self.set_prev(he_b.0, diag_ab);
        self.set_next(prev_he_b.0, diag_ba);
        self.set_prev(he_a.0, diag_ba);
        let ghost mid = *self;
        let mut j: usize = 0;
        while j < m
            invariant
                m == hes@.len(),
                hes@ == m0.face_walk(face.0 as int),
                forall|i: int| 0 <= i < hes@.len() ==> (#[trigger] hes@[i]).0 < m0.nh(),
                hes@.no_duplicates(),
                ia < m,
                ib < m,
                j <= m,
                self.nh() == mid.nh(),
                mid.nh() == m0.nh() + 2,
                self.vertices@ == mid.vertices@,
                self.faces@ == mid.faces@,
                new_face_id.0 == m0.nf(),
                forall|i: int|
                    0 <= i < mid.nh() ==> {
                        let x = #[trigger] self.half_edges@[i];
                        let y = mid.half_edges@[i];
                        &&& x.origin == y.origin
                        &&& x.twin == y.twin
                        &&& x.cut == y.cut
                        &&& x.next == y.next
                        &&& x.prev == y.prev
                        &&& (forall|jj: int| 0 <= jj < j ==> hes@[jj].0 != i) ==> x.face == y.face
                    },
                forall|jj: int|
                    0 <= jj < j ==> self.half_edges@[(#[trigger] hes@[jj]).0 as int].face == if in_run(
                        jj,
                        ib as int,
                        ia as int,
                    ) {
                        face
                    } else {
                        new_face_id
                    },
            decreases m - j,
        {
            let in_f = if ib <= ia {
                ib <= j && j < ia
            } else {
                j >= ib || j < ia
            };
            let h = hes[j];
            if in_f {
                self.set_face_of(h.0, face);
            } else {
                self.set_face_of(h.0, new_face_id);
            }
            proof {
                assert forall|jj: int| 0 <= jj < j implies hes@[jj] != h by {
                    assert(hes@[jj] != hes@[j as int]);
                }
            }
            j = j + 1;
        }
        self.set_face_half_edge(face.0, diag_ab);
        proof {
            let m1 = *self;
            let c = hes@;
            assert(ia as int == m0.last_origin_in(c, v_a, m as int));
            assert(ib as int == m0.last_origin_in(c, v_b, m as int));
            assert(!m0.split_face_refused(face.0 as int, v_a, v_b));
            lemma_last_origin(m0, c, v_a, m as int);
            lemma_last_origin(m0, c, v_b, m as int);
            assert(ia != ib);
            assert(pa != pb);
            assert(c[pa as int] != c[pb as int]);
            assert(c[ia as int] != c[ib as int]);
            assert forall|i: int| 0 <= i < m0.nh() implies {
                let x = #[trigger] m1.half_edges@[i];
                let y = m0.half_edges@[i];
                &&& x.origin == y.origin
                &&& x.twin == y.twin
                &&& x.cut == y.cut
                &&& x.next.0 == if i == c[pa as int].0 {
                    m0.nh() as usize
                } else if i == c[pb as int].0 {
                    (m0.nh() + 1) as usize
                } else {
                    y.next.0
                }
                &&& x.prev.0 == if i == c[ib as int].0 {
                    m0.nh() as usize
                } else if i == c[ia as int].0 {
                    (m0.nh() + 1) as usize
                } else {
                    y.prev.0
                }
                &&& !c.contains(HalfEdgeId(i as usize)) ==> x.face == y.face
            } by {
                let _ = mid.half_edges@[i];
                if !c.contains(HalfEdgeId(i as usize)) {
                    assert forall|jj: int| 0 <= jj < m implies hes@[jj].0 != i by {
                        if hes@[jj].0 == i {
                            assert(c[jj] == HalfEdgeId(i as usize));
                        }
                    }
                }
            }
            assert(m1.faces@[face.0 as int] == HEFace { half_edge: HalfEdgeId(m0.nh() as usize), ..m0.faces@[face.0 as int] });
            assert(split_face_relation(m0, m1, face.0 as int, v_a, v_b, cut_edge));
            assert(m0.is_walk_from(c, m0.faces@[face.0 as int].half_edge, m0.nh() + 1));
            lemma_split_face_wf(m0, m1, face.0 as int, v_a, v_b, cut_edge);

        }
        new_face_id
    }
}

} // verus!
