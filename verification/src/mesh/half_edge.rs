//! Half-edge mesh: vertices, directed half-edges and polygonal faces, with
//! the local editing operations used by cutting (edge split, face split,
//! interior fan insertion, edge flip).
//!
//! A missing twin, vertex-outgoing edge or id is written `usize::MAX`.
use vstd::prelude::*;

verus! {

#[derive(Debug, Clone, Copy, PartialEq, Eq, Hash, Structural)]
pub struct VertexId(pub usize);

#[derive(Debug, Clone, Copy, PartialEq, Eq, Hash, Structural)]
pub struct HalfEdgeId(pub usize);

#[derive(Debug, Clone, Copy, PartialEq, Eq, Hash, Structural)]
pub struct FaceId(pub usize);

#[derive(Debug, Clone, Copy)]
pub struct HEVertex {
    pub position: glam::Vec3,
    pub uv: glam::Vec2,
    pub outgoing: HalfEdgeId,
}

#[derive(Debug, Clone, Copy)]
pub struct HalfEdge {
    pub origin: VertexId,
    pub twin: HalfEdgeId,
    pub next: HalfEdgeId,
    pub prev: HalfEdgeId,
    pub face: FaceId,
    /// The undirected edge lies on a cut curve; region labelling treats it
    /// as a barrier.
    pub cut: bool,
}

#[derive(Debug, Clone, Copy)]
pub struct HEFace {
    pub half_edge: HalfEdgeId,
    pub valid: bool,
    pub patch_index: Option<(usize, usize)>,
    /// Connected-region label assigned after cutting.
    pub component_id: Option<usize>,
}

#[derive(Debug, Clone)]
pub struct HalfEdgeMesh {
    pub vertices: Vec<HEVertex>,
    pub half_edges: Vec<HalfEdge>,
    pub faces: Vec<HEFace>,
}

/// The "no such element" marker used for twins and outgoing edges.
pub open spec fn none_id() -> usize {
    usize::MAX
}

/// A sequence of distinct integers drawn from `[0, n)` has at most `n` elements.
pub proof fn lemma_distinct_bounded(s: Seq<int>, n: int)
    requires
        0 <= n,
        s.no_duplicates(),
        forall|i: int| 0 <= i < s.len() ==> 0 <= #[trigger] s[i] < n,
    ensures
        s.len() <= n,
{
    s.unique_seq_to_set();
    vstd::set_lib::lemma_int_range(0, n);
    assert(s.to_set().subset_of(vstd::set_lib::set_int_range(0, n)));
    vstd::set_lib::lemma_len_subset(s.to_set(), vstd::set_lib::set_int_range(0, n));
}

impl HalfEdgeMesh {
    pub open spec fn nv(&self) -> int {
        self.vertices@.len() as int
    }

    pub open spec fn nh(&self) -> int {
        self.half_edges@.len() as int
    }

    pub open spec fn nf(&self) -> int {
        self.faces@.len() as int
    }

    /// The half-edge record with index `h`.
    pub open spec fn he(&self, h: int) -> HalfEdge {
        self.half_edges@[h]
    }

    pub open spec fn next_of(&self, h: HalfEdgeId) -> HalfEdgeId {
        self.half_edges@[h.0 as int].next
    }

    pub open spec fn prev_of(&self, h: HalfEdgeId) -> HalfEdgeId {
        self.half_edges@[h.0 as int].prev
    }

    /// Vertex at which half-edge `h` ends.
    pub open spec fn dest_of(&self, h: HalfEdgeId) -> VertexId {
        self.half_edges@[self.half_edges@[h.0 as int].next.0 as int].origin
    }

    /// Every `next` link points into the half-edge array.
    pub open spec fn next_bounded(&self) -> bool {
        forall|h: int| 0 <= h < self.nh() ==> (#[trigger] self.half_edges@[h]).next.0 < self.nh()
    }

    /// Every index that the mesh operations follow points into the mesh.
    pub open spec fn bounded(&self) -> bool {
        &&& self.next_bounded()
        &&& forall|h: int|
            0 <= h < self.nh() ==> {
                &&& (#[trigger] self.half_edges@[h]).prev.0 < self.nh()
                &&& self.half_edges@[h].origin.0 < self.nv()
                &&& self.half_edges@[h].face.0 < self.nf()
                &&& (self.half_edges@[h].twin.0 == none_id() || self.half_edges@[h].twin.0
                    < self.nh())
            }
        &&& forall|f: int| 0 <= f < self.nf() ==> (#[trigger] self.faces@[f]).half_edge.0 < self.nh()
        &&& self.outgoing_bounded()
    }

    /// Every vertex's outgoing half-edge is absent or in range.
    pub open spec fn outgoing_bounded(&self) -> bool {
        forall|v: int|
            0 <= v < self.nv() ==> ((#[trigger] self.vertices@[v]).outgoing.0 == none_id()
                || self.vertices@[v].outgoing.0 < self.nh())
    }

    /// The links of half-edge `h` agree with their neighbours: `next` and
    /// `prev` undo each other, `next` stays in the same face, the face is
    /// valid and a twin points back.
    pub open spec fn link_ok(&self, h: int) -> bool {
        let e = self.half_edges@[h];
        &&& self.half_edges@[e.next.0 as int].prev.0 == h
        &&& self.half_edges@[e.prev.0 as int].next.0 == h
        &&& self.half_edges@[e.next.0 as int].face == e.face
        &&& self.faces@[e.face.0 as int].valid
        &&& (e.twin.0 != none_id() ==> e.twin.0 != h && self.half_edges@[e.twin.0 as int].twin.0 == h)
    }

    /// A valid face names one of its own half-edges.
    pub open spec fn face_ok(&self, f: int) -> bool {
        self.faces@[f].valid ==> self.half_edges@[self.faces@[f].half_edge.0 as int].face.0 == f
    }

    /// A vertex's outgoing half-edge starts at the vertex.
    pub open spec fn vertex_ok(&self, v: int) -> bool {
        self.vertices@[v].outgoing.0 != none_id() ==> self.half_edges@[self.vertices@[v].outgoing.0 as int].origin.0 == v
    }

    /// Well-formedness: `next` and `prev` are inverse permutations that stay
    /// within a face, twins are paired, every face names one of its own
    /// half-edges and every vertex's outgoing half-edge starts at it.
    pub open spec fn wf(&self) -> bool {
        &&& self.bounded()
        &&& forall|h: int| 0 <= h < self.nh() ==> #[trigger] self.link_ok(h)
        &&& forall|f: int| 0 <= f < self.nf() ==> #[trigger] self.face_ok(f)
        &&& forall|v: int| 0 <= v < self.nv() ==> #[trigger] self.vertex_ok(v)
    }

    /// `s` walks `next` from `s[0]` and returns to `s[0]` after its last element,
    /// visiting each half-edge once.
    pub open spec fn is_cycle(&self, s: Seq<HalfEdgeId>) -> bool {
        &&& s.len() >= 1
        &&& forall|i: int| 0 <= i < s.len() ==> (#[trigger] s[i]).0 < self.nh()
        &&& forall|i: int| 0 <= i < s.len() - 1 ==> #[trigger] self.next_of(s[i]) == s[i + 1]
        &&& self.next_of(s[s.len() - 1]) == s[0]
        &&& s.no_duplicates()
    }

    /// The walk that `face_half_edges` performs from `start`: `s` follows
    /// `next`, never comes back to `start`, and stops either just before
    /// returning to `start` or after `cap` steps.
    pub open spec fn is_walk_from(&self, s: Seq<HalfEdgeId>, start: HalfEdgeId, cap: int) -> bool {
        &&& s.len() >= 1
        &&& s[0] == start
        &&& s.len() <= cap
        &&& forall|i: int| 0 <= i < s.len() - 1 ==> #[trigger] self.next_of(s[i]) == s[i + 1]
        &&& forall|i: int| 1 <= i < s.len() ==> #[trigger] s[i] != start
        &&& (s.len() < cap ==> self.next_of(s[s.len() - 1]) == start)
    }

    /// The walk around face `f` that `face_half_edges` returns.
    pub open spec fn face_walk(&self, f: int) -> Seq<HalfEdgeId> {
        choose|s: Seq<HalfEdgeId>| #[trigger] self.is_walk_from(s, self.faces@[f].half_edge, self.nh() + 1)
    }

    /// Number of valid faces.
    pub open spec fn valid_face_count(&self) -> nat {
        self.faces@.filter(|f: HEFace| f.valid).len()
    }

    /// What `validate` checks: twins are in range and point back, each valid
    /// face names a half-edge in range and the half-edges met on its walk
    /// belong to it, and each vertex's outgoing half-edge starts at the vertex.
    pub open spec fn passes_validation(&self) -> bool {
        &&& forall|h: int|
            0 <= h < self.nh() && (#[trigger] self.half_edges@[h]).twin.0 != none_id() ==> {
                &&& self.half_edges@[h].twin.0 < self.nh()
                &&& self.half_edges@[self.half_edges@[h].twin.0 as int].twin.0 == h
            }
        &&& forall|f: int| 0 <= f < self.nf() ==> #[trigger] self.face_passes(f)
        &&& forall|v: int|
            0 <= v < self.nv() && (#[trigger] self.vertices@[v]).outgoing.0 != none_id()
                ==> self.half_edges@[self.vertices@[v].outgoing.0 as int].origin.0 == v
    }

    /// A valid face names a half-edge in range, and every half-edge on the
    /// walk from it belongs to the face.
    pub open spec fn face_passes(&self, f: int) -> bool {
        self.faces@[f].valid ==> {
            &&& self.faces@[f].half_edge.0 < self.nh()
            &&& forall|s: Seq<HalfEdgeId>|
                #[trigger] self.is_walk_from(s, self.faces@[f].half_edge, self.nh() + 1) ==> forall|i: int|
                    0 <= i < s.len() ==> self.half_edges@[(#[trigger] s[i]).0 as int].face.0 == f
        }
    }

    /// Two walks from the same start with the same cap are the same walk.
    pub proof fn lemma_walk_unique(&self, s1: Seq<HalfEdgeId>, s2: Seq<HalfEdgeId>, start: HalfEdgeId, cap: int)
        requires
            self.is_walk_from(s1, start, cap),
            self.is_walk_from(s2, start, cap),
        ensures
            s1 == s2,
    {
        let n = if s1.len() < s2.len() { s1.len() } else { s2.len() };
        assert forall|i: int| 0 <= i < n implies s1[i] == s2[i] by {
            self.lemma_walk_prefix(s1, s2, start, cap, i);
        }
        if s1.len() < s2.len() {
            assert(self.next_of(s1[s1.len() - 1]) == start);
            assert(self.next_of(s2[s1.len() - 1]) == s2[s1.len() as int]);
        } else if s2.len() < s1.len() {
            assert(self.next_of(s2[s2.len() - 1]) == start);
            assert(self.next_of(s1[s2.len() - 1]) == s1[s2.len() as int]);
        }
        assert(s1 =~= s2);
    }

    proof fn lemma_walk_prefix(&self, s1: Seq<HalfEdgeId>, s2: Seq<HalfEdgeId>, start: HalfEdgeId, cap: int, i: int)
        requires
            self.is_walk_from(s1, start, cap),
            self.is_walk_from(s2, start, cap),
            0 <= i < s1.len(),
            i < s2.len(),
        ensures
            s1[i] == s2[i],
        decreases i,
    {
        if i > 0 {
            self.lemma_walk_prefix(s1, s2, start, cap, i - 1);
            assert(self.next_of(s1[i - 1]) == s1[i]);
            assert(self.next_of(s2[i - 1]) == s2[i]);
        }
    }

    /// A well-formed mesh passes validation.
    pub proof fn lemma_wf_passes_validation(&self)
        requires
            self.wf(),
        ensures
            self.passes_validation(),
    {
        assert forall|h: int|
            0 <= h < self.nh() && (#[trigger] self.half_edges@[h]).twin.0 != none_id() implies {
                &&& self.half_edges@[h].twin.0 < self.nh()
                &&& self.half_edges@[self.half_edges@[h].twin.0 as int].twin.0 == h
            } by {
            assert(self.link_ok(h));
        }
        assert forall|f: int| 0 <= f < self.nf() implies #[trigger] self.face_passes(f) by {
            assert(self.face_ok(f));
            if self.faces@[f].valid {
                assert forall|s: Seq<HalfEdgeId>|
                    #[trigger] self.is_walk_from(s, self.faces@[f].half_edge, self.nh() + 1) implies forall|i: int|
                        0 <= i < s.len() ==> self.half_edges@[(#[trigger] s[i]).0 as int].face.0 == f by {
                    self.lemma_walk_same_face(s, self.faces@[f].half_edge, self.nh() + 1);
                }
            }
        }
        assert forall|v: int|
            0 <= v < self.nv() && (#[trigger] self.vertices@[v]).outgoing.0 != none_id()
                implies self.half_edges@[self.vertices@[v].outgoing.0 as int].origin.0 == v by {
            assert(self.vertex_ok(v));
        }
    }

    /// In a well-formed mesh a cycle is closed under `next` and `prev`:
    /// neighbours of its members are members, neighbours of others are not.
    pub proof fn lemma_cycle_neighbours(&self, c: Seq<HalfEdgeId>)
        requires
            self.wf(),
            self.is_cycle(c),
        ensures
            forall|j: int| 0 <= j < c.len() ==> #[trigger] self.next_of(c[j]) == c[if j + 1 == c.len() { 0 } else { j + 1 }],
            forall|j: int| 0 <= j < c.len() ==> #[trigger] self.prev_of(c[j]) == c[if j == 0 { c.len() - 1 } else { j - 1 }],
            forall|h: HalfEdgeId| 0 <= h.0 < self.nh() && !c.contains(h) ==> !c.contains(#[trigger] self.next_of(h)) && !c.contains(self.prev_of(h)),
    {
        assert forall|j: int| 0 <= j < c.len() implies #[trigger] self.prev_of(c[j]) == c[if j == 0 { c.len() - 1 } else { j - 1 }] by {
            let p = if j == 0 { c.len() - 1 } else { j - 1 };
            assert(self.next_of(c[p]) == c[j]);
            assert(self.link_ok(c[p].0 as int));
        }
        assert forall|h: HalfEdgeId| 0 <= h.0 < self.nh() && !c.contains(h) implies !c.contains(#[trigger] self.next_of(h)) && !c.contains(self.prev_of(h)) by {
            assert(self.link_ok(h.0 as int));
            if c.contains(self.next_of(h)) {
                let j = choose|j: int| 0 <= j < c.len() && c[j] == self.next_of(h);
                let p = if j == 0 { c.len() - 1 } else { j - 1 };
                assert(self.prev_of(c[j]) == c[p]);
                assert(self.prev_of(self.next_of(h)) == h);
                assert(c.contains(c[p]));
            }
            if c.contains(self.prev_of(h)) {
                let j = choose|j: int| 0 <= j < c.len() && c[j] == self.prev_of(h);
                let q = if j + 1 == c.len() { 0 } else { j + 1 };
                assert(self.next_of(c[j]) == c[q]);
                assert(self.next_of(self.prev_of(h)) == h);
                assert(c.contains(c[q]));
            }
        }
    }

    /// Every half-edge on a walk in a well-formed mesh lies in the face of the
    /// walk's first half-edge.
    pub proof fn lemma_walk_same_face(&self, s: Seq<HalfEdgeId>, start: HalfEdgeId, cap: int)
        requires
            self.wf(),
            start.0 < self.nh(),
            self.is_walk_from(s, start, cap),
        ensures
            forall|i: int| 0 <= i < s.len() ==> (#[trigger] s[i]).0 < self.nh() && self.half_edges@[s[i].0 as int].face
                == self.half_edges@[start.0 as int].face,
    {
        assert forall|i: int| 0 <= i < s.len() implies (#[trigger] s[i]).0 < self.nh() && self.half_edges@[s[i].0 as int].face
            == self.half_edges@[start.0 as int].face by {
            self.lemma_walk_face_at(s, start, cap, i);
        }
    }

    proof fn lemma_walk_face_at(&self, s: Seq<HalfEdgeId>, start: HalfEdgeId, cap: int, i: int)
        requires
            self.wf(),
            start.0 < self.nh(),
            self.is_walk_from(s, start, cap),
            0 <= i < s.len(),
        ensures
            s[i].0 < self.nh(),
            self.half_edges@[s[i].0 as int].face == self.half_edges@[start.0 as int].face,
        decreases i,
    {
        if i > 0 {
            self.lemma_walk_face_at(s, start, cap, i - 1);
            assert(self.next_of(s[i - 1]) == s[i]);
            assert(self.link_ok(s[i - 1].0 as int));
            let _ = self.half_edges@[s[i - 1].0 as int];
        }
    }
}

/// Relation between the mesh before (`m0`) and after (`m1`) splitting
/// half-edge `h` (and its twin, if any) at a new vertex `v`.
///
/// `h: A -> B` becomes `h: A -> v` followed by a new half-edge `v -> B`
/// (index `m0.nh()`); a twin `t: B -> A` becomes `t: B -> v` followed by a
/// new half-edge `v -> A` (index `m0.nh() + 1`), and the two pairs of twins
/// are rematched. Nothing else changes.
pub open spec fn split_edge_relation(
    m0: HalfEdgeMesh,
    m1: HalfEdgeMesh,
    h: int,
    v: VertexId,
    position: glam::Vec3,
    uv: glam::Vec2,
) -> bool {
    let n0 = m0.nh();
    let e = m0.half_edges@[h];
    let t = e.twin.0;
    let has_twin = t != none_id();
    let nx = e.next.0 as int;
    let tn = if has_twin { m0.half_edges@[t as int].next.0 as int } else { -1 };
    &&& v.0 == m0.nv()
    &&& m1.vertices@ == m0.vertices@.push(HEVertex { position, uv, outgoing: HalfEdgeId(n0 as usize) })
    &&& m1.faces@ == m0.faces@
    &&& m1.nh() == n0 + if has_twin { 2int } else { 1int }
    &&& m1.half_edges@[n0] == HalfEdge {
        origin: v,
        twin: if has_twin { HalfEdgeId(t) } else { HalfEdgeId(usize::MAX) },
        next: e.next,
        prev: HalfEdgeId(h as usize),
        face: e.face,
        cut: e.cut,
    }
    &&& has_twin ==> m1.half_edges@[n0 + 1] == HalfEdge {
        origin: v,
        twin: HalfEdgeId(h as usize),
        next: m0.half_edges@[t as int].next,
        prev: HalfEdgeId(t),
        face: m0.half_edges@[t as int].face,
        cut: m0.half_edges@[t as int].cut,
    }
    &&& forall|i: int|
        0 <= i < n0 ==> {
            let a = #[trigger] m1.half_edges@[i];
            let b = m0.half_edges@[i];
            &&& a.origin == b.origin
            &&& a.face == b.face
            &&& a.cut == b.cut
            &&& a.next.0 == if i == h {
                n0 as usize
            } else if has_twin && i == t {
                (n0 + 1) as usize
            } else {
                b.next.0
            }
            &&& a.prev.0 == if has_twin && i == tn {
                (n0 + 1) as usize
            } else if i == nx {
                n0 as usize
            } else {
                b.prev.0
            }
            &&& a.twin.0 == if has_twin && i == h {
                (n0 + 1) as usize
            } else if has_twin && i == t {
                n0 as usize
            } else {
                b.twin.0
            }
        }
}

/// Splitting an edge keeps a mesh well-formed.
pub proof fn lemma_split_edge_wf(
    m0: HalfEdgeMesh,
    m1: HalfEdgeMesh,
    h: int,
    v: VertexId,
    position: glam::Vec3,
    uv: glam::Vec2,
)
    requires
        m0.wf(),
        0 <= h < m0.nh(),
        m0.nh() + 2 < usize::MAX,
        split_edge_relation(m0, m1, h, v, position, uv),
    ensures
        m1.wf(),
{
    let n0 = m0.nh();
    let e = m0.half_edges@[h];
    let t = e.twin.0 as int;
    let has_twin = e.twin.0 != none_id();
    assert(m0.link_ok(h));
    if has_twin {
        assert(m0.link_ok(t));
    }
    assert forall|i: int| 0 <= i < m1.nh() implies {
        &&& (#[trigger] m1.half_edges@[i]).next.0 < m1.nh()
    } by {
        if i < n0 {
            let _ = m0.half_edges@[i];
        }
    }
    assert forall|i: int| 0 <= i < m1.nh() implies {
        &&& (#[trigger] m1.half_edges@[i]).prev.0 < m1.nh()
        &&& m1.half_edges@[i].origin.0 < m1.nv()
        &&& m1.half_edges@[i].face.0 < m1.nf()
        &&& (m1.half_edges@[i].twin.0 == none_id() || m1.half_edges@[i].twin.0 < m1.nh())
    } by {
        if i < n0 {
            let _ = m0.half_edges@[i];
        }
    }
    assert forall|f: int| 0 <= f < m1.nf() implies (#[trigger] m1.faces@[f]).half_edge.0 < m1.nh() by {
        let _ = m0.faces@[f];
    }
    assert forall|w: int| 0 <= w < m1.nv() implies ((#[trigger] m1.vertices@[w]).outgoing.0 == none_id()
        || m1.vertices@[w].outgoing.0 < m1.nh()) by {
        if w < m0.nv() {
            let _ = m0.vertices@[w];
        }
    }
    let nx = e.next.0 as int;
    assert(m0.link_ok(nx));
    let _ = m1.half_edges@[nx];
    let _ = m1.half_edges@[h];
    let _ = m1.half_edges@[n0];
    if has_twin {
        let tn = m0.half_edges@[t].next.0 as int;
        assert(m0.link_ok(tn));
        let _ = m1.half_edges@[tn];
        let _ = m1.half_edges@[t];
        let _ = m1.half_edges@[n0 + 1];
    }
    assert forall|i: int| 0 <= i < m1.nh() implies #[trigger] m1.link_ok(i) by {
        if i < n0 {
            assert(m0.link_ok(i));
            let a = m0.half_edges@[i];
            let _ = m1.half_edges@[i];
            assert(m0.link_ok(a.next.0 as int));
            assert(m0.link_ok(a.prev.0 as int));
            let _ = m1.half_edges@[a.next.0 as int];
            let _ = m1.half_edges@[a.prev.0 as int];
            if a.twin.0 != none_id() {
                assert(m0.link_ok(a.twin.0 as int));
                let _ = m1.half_edges@[a.twin.0 as int];
            }
            let b = m1.half_edges@[i];
            if i == h {
                assert(b.next.0 == n0);
            } else if has_twin && i == t {
                assert(b.next.0 == n0 + 1);
            } else {
                assert(b.next == a.next);
                assert(m0.half_edges@[a.next.0 as int].prev.0 == i);
                assert(a.next.0 != nx);
                if has_twin {
                    let tn = m0.half_edges@[t].next.0 as int;
                    assert(m0.half_edges@[tn].prev.0 == t);
                    assert(a.next.0 != tn);
                }
                assert(m1.half_edges@[a.next.0 as int].prev == m0.half_edges@[a.next.0 as int].prev);
            }
            assert(m1.half_edges@[b.next.0 as int].prev.0 == i);
            if has_twin && i == m0.half_edges@[t].next.0 {
                assert(b.prev.0 == n0 + 1);
            } else if i == nx {
                assert(b.prev.0 == n0);
            } else {
                assert(b.prev == a.prev);
                assert(m0.half_edges@[a.prev.0 as int].next.0 == i);
                assert(a.prev.0 != h);
                if has_twin {
                    assert(a.prev.0 != t);
                }
                assert(m1.half_edges@[a.prev.0 as int].next == m0.half_edges@[a.prev.0 as int].next);
            }
            assert(m1.half_edges@[b.prev.0 as int].next.0 == i);
            assert(m1.half_edges@[b.next.0 as int].face == b.face);
            assert(m1.faces@[b.face.0 as int].valid);
            assert(b.twin.0 != none_id() ==> b.twin.0 != i && m1.half_edges@[b.twin.0 as int].twin.0 == i);
        } else if i == n0 {
            let b = m1.half_edges@[i];
            assert(b.next.0 == nx);
            if has_twin {
                let tn = m0.half_edges@[t].next.0 as int;
                assert(m0.half_edges@[tn].prev.0 == t);
                assert(m0.half_edges@[nx].prev.0 == h);
                assert(nx != tn);
            }
            assert(m1.half_edges@[nx].prev.0 == n0);
            assert(m1.half_edges@[b.next.0 as int].prev.0 == i);
            assert(m1.half_edges@[b.prev.0 as int].next.0 == i);
        } else {
            let tn = m0.half_edges@[t].next.0 as int;
            let b = m1.half_edges@[i];
            assert(m1.half_edges@[tn].prev.0 == n0 + 1);
            assert(m1.half_edges@[b.next.0 as int].prev.0 == i);
            assert(m1.half_edges@[b.prev.0 as int].next.0 == i);
            assert(m1.half_edges@[b.next.0 as int].face == b.face);
            assert(m1.faces@[b.face.0 as int].valid);
            assert(b.twin.0 != none_id() ==> b.twin.0 != i && m1.half_edges@[b.twin.0 as int].twin.0 == i);
        }
    }
    assert forall|f: int| 0 <= f < m1.nf() implies #[trigger] m1.face_ok(f) by {
        assert(m0.face_ok(f));
        let _ = m1.half_edges@[m0.faces@[f].half_edge.0 as int];
        let _ = m0.half_edges@[m0.faces@[f].half_edge.0 as int];
    }
    assert forall|w: int| 0 <= w < m1.nv() implies #[trigger] m1.vertex_ok(w) by {
        if w < m0.nv() {
            assert(m1.vertices@[w] == m0.vertices@[w]);
            assert(m0.vertex_ok(w));
            assert(m1.vertex_ok(w));
            let o = m0.vertices@[w].outgoing.0;
            if o != none_id() {
                let _ = m1.half_edges@[o as int];
                let _ = m0.half_edges@[o as int];
            }
        }
    }
}

impl HalfEdgeMesh {
    pub fn new() -> (m: Self)
        ensures
            m.vertices@.len() == 0,
            m.half_edges@.len() == 0,
            m.faces@.len() == 0,
            m.wf(),
    {
        HalfEdgeMesh { vertices: Vec::new(), half_edges: Vec::new(), faces: Vec::new() }
    }
}

impl Default for HalfEdgeMesh {
    /// The empty mesh (see `new`).
    fn default() -> (m: Self)
        ensures
            m.vertices@.len() == 0,
            m.half_edges@.len() == 0,
            m.faces@.len() == 0,
            m.wf(),
    {
        Self::new()
    }
}

impl HalfEdgeMesh {

    pub fn num_valid_faces(&self) -> (n: usize)
        ensures
            n == self.valid_face_count(),
    {
        let mut n: usize = 0;
        let mut i: usize = 0;
        while i < self.faces.len()
            invariant
                i <= self.faces.len(),
                n == self.faces@.take(i as int).filter(|f: HEFace| f.valid).len(),
                n <= i,
            decreases self.faces.len() - i,
        {
            proof {
                let s = self.faces@.take(i as int + 1);
                assert(s.drop_last() =~= self.faces@.take(i as int));
                reveal(Seq::filter);
                assert(s.last() == self.faces@[i as int]);
            }
            if self.faces[i].valid {
                n = n + 1;
            }
            i = i + 1;
        }
        assert(self.faces@.take(self.faces@.len() as int) =~= self.faces@);
        n
    }

    /// Origin vertex of half-edge `he`.
    pub fn face_vertex(&self, he: HalfEdgeId) -> (v: usize)
        requires
            he.0 < self.half_edges@.len(),
        ensures
            v == self.half_edges@[he.0 as int].origin.0,
    {
        self.half_edges[he.0].origin.0
    }

    /// In a well-formed mesh, the walk from `s` (a duplicate-free prefix of
    /// the walk from `s[0]` that has not come back to `s[0]`) goes on until it
    /// comes back: it can be completed to a cycle.
    proof fn lemma_walk_completes(&self, s: Seq<HalfEdgeId>) -> (w: Seq<HalfEdgeId>)
        requires
            self.wf(),
            s.len() >= 1,
            s.no_duplicates(),
            forall|i: int| 0 <= i < s.len() ==> (#[trigger] s[i]).0 < self.nh(),
            forall|i: int| 0 <= i < s.len() - 1 ==> #[trigger] self.next_of(s[i]) == s[i + 1],
            forall|i: int| 1 <= i < s.len() ==> #[trigger] s[i] != s[0],
        ensures
            self.is_walk_from(w, s[0], self.nh() + 1),
            self.is_cycle(w),
        decreases self.nh() + 1 - s.len(),
    {
        let ids = s.map_values(|h: HalfEdgeId| h.0 as int);
        assert forall|i: int, j: int| 0 <= i < ids.len() && 0 <= j < ids.len() && i != j implies ids[i] != ids[j] by {
            assert(s[i] != s[j]);
        }
        assert forall|i: int| 0 <= i < ids.len() implies 0 <= #[trigger] ids[i] < self.nh() by {}
        lemma_distinct_bounded(ids, self.nh());
        let last = s[s.len() - 1];
        assert(self.link_ok(last.0 as int));
        let current = self.next_of(last);
        if current == s[0] {
            s
        } else {
            self.lemma_walk_extends(s, current);
            let t = s.push(current);
            assert forall|i: int| 0 <= i < t.len() - 1 implies #[trigger] self.next_of(t[i]) == t[i + 1] by {
                if i < s.len() - 1 {
                    assert(t[i] == s[i] && t[i + 1] == s[i + 1]);
                }
            }
            assert forall|i: int| 1 <= i < t.len() implies #[trigger] t[i] != t[0] by {
                if i < s.len() {
                    assert(t[i] == s[i]);
                }
            }
            if t.len() > self.nh() {
                let tids = t.map_values(|h: HalfEdgeId| h.0 as int);
                assert forall|i: int, j: int| 0 <= i < tids.len() && 0 <= j < tids.len() && i != j implies tids[i] != tids[j] by {
                    assert(t[i] != t[j]);
                }
                assert forall|i: int| 0 <= i < tids.len() implies 0 <= #[trigger] tids[i] < self.nh() by {
                    if i < s.len() {
                        assert(t[i] == s[i]);
                    }
                }
                lemma_distinct_bounded(tids, self.nh());
            }
            self.lemma_walk_completes(t)
        }
    }

    /// In a well-formed mesh the walk of every valid face is the walk that
    /// `face_half_edges` takes, and a cycle.
    pub proof fn lemma_face_walk_ok(&self, f: int)
        requires
            self.wf(),
            0 <= f < self.nf(),
            self.faces@[f].valid,
        ensures
            self.is_walk_from(self.face_walk(f), self.faces@[f].half_edge, self.nh() + 1),
            self.is_cycle(self.face_walk(f)),
    {
        let start = self.faces@[f].half_edge;
        assert(start.0 < self.nh());
        let s = seq![start];
        let w = self.lemma_walk_completes(s);
        let c = self.face_walk(f);
        assert(self.is_walk_from(c, start, self.nh() + 1));
        self.lemma_walk_unique(c, w, start, self.nh() + 1);
    }

    /// Extending a duplicate-free walk by the successor of its last element
    /// keeps it duplicate-free, unless the successor is the walk's start.
    proof fn lemma_walk_extends(&self, s: Seq<HalfEdgeId>, current: HalfEdgeId)
        requires
            self.wf(),
            s.len() >= 1,
            s.no_duplicates(),
            forall|i: int| 0 <= i < s.len() ==> (#[trigger] s[i]).0 < self.nh(),
            forall|i: int| 0 <= i < s.len() - 1 ==> #[trigger] self.next_of(s[i]) == s[i + 1],
            current == self.next_of(s[s.len() - 1]),
            current != s[0],
        ensures
            s.push(current).no_duplicates(),
    {
        let last = s[s.len() - 1];
        assert forall|j: int| 0 <= j < s.len() implies #[trigger] s[j] != current by {
            if j > 0 {
                let pj = s[j - 1];
                assert(self.next_of(pj) == s[j]);
                assert(self.link_ok(pj.0 as int));
                assert(self.link_ok(last.0 as int));
                if s[j] == current {
                    assert(pj.0 == self.half_edges@[current.0 as int].prev.0);
                    assert(last.0 == self.half_edges@[current.0 as int].prev.0);
                    assert(j - 1 == s.len() - 1);
                }
            }
        }
        let t = s.push(current);
        assert forall|i: int, j: int| 0 <= i < t.len() && 0 <= j < t.len() && i != j implies t[i] != t[j] by {
            if i < s.len() && j < s.len() {
            } else if i == s.len() {
                assert(t[j] == s[j]);
            } else {
                assert(t[i] == s[i]);
            }
        }
    }

    /// `h` and the `n` half-edges reached from it by `next` lie in the
    /// half-edge array.
    pub open spec fn walk_in_range(&self, h: HalfEdgeId, n: nat) -> bool
        decreases n,
    {
        &&& 0 <= h.0 < self.nh()
        &&& n > 0 ==> self.walk_in_range(self.next_of(h), (n - 1) as nat)
    }

    /// With every `next` link in range, every walk stays in range.
    pub proof fn lemma_walk_in_range(&self, h: HalfEdgeId, n: nat)
        requires
            self.next_bounded(),
            0 <= h.0 < self.nh(),
        ensures
            self.walk_in_range(h, n),
        decreases n,
    {
        if n > 0 {
            self.lemma_walk_in_range(self.next_of(h), (n - 1) as nat);
        }
    }

    /// The half-edges of `face` in cycle order, starting at the face's own
    /// half-edge. The walk is cut off after `half_edges.len() + 1` steps, which
    /// a well-formed mesh never reaches. Only the links the walk follows
    /// need to be in range.
    pub fn face_half_edges(&self, face: FaceId) -> (r: Vec<HalfEdgeId>)
        requires
            face.0 < self.faces@.len(),
            self.next_bounded() || self.walk_in_range(self.faces@[face.0 as int].half_edge, (self.nh() + 1) as nat),
            self.faces@[face.0 as int].half_edge.0 < self.nh(),
        ensures
            self.is_walk_from(r@, self.faces@[face.0 as int].half_edge, self.nh() + 1),
            r@ == self.face_walk(face.0 as int),
            forall|i: int| 0 <= i < r@.len() ==> (#[trigger] r@[i]).0 < self.nh(),
            self.wf() ==> self.is_cycle(r@),
    {
        let start = self.faces[face.0].half_edge;
        proof {
            if self.next_bounded() {
                self.lemma_walk_in_range(start, (self.nh() + 1) as nat);
            }
        }
        let mut result: Vec<HalfEdgeId> = Vec::new();
        result.push(start);
        let bound = self.half_edges.len();
        let mut current = self.half_edges[start.0].next;
        proof {
            assert(self.walk_in_range(current, self.nh() as nat));
        }
        while current != start && result.len() <= bound
            invariant
                self.walk_in_range(current, (bound + 1 - result@.len()) as nat),
                face.0 < self.nf(),
                start == self.faces@[face.0 as int].half_edge,
                start.0 < self.nh(),
                bound == self.nh(),
                1 <= result@.len() <= bound + 1,
                result@[0] == start,
                current == self.next_of(result@[result@.len() - 1]),
                current.0 < self.nh(),
                forall|i: int| 0 <= i < result@.len() ==> (#[trigger] result@[i]).0 < self.nh(),
                forall|i: int|
                    0 <= i < result@.len() - 1 ==> #[trigger] self.next_of(result@[i]) == result@[i + 1],
                forall|i: int| 1 <= i < result@.len() ==> #[trigger] result@[i] != start,
                self.wf() ==> result@.no_duplicates(),
            decreases bound + 1 - result@.len(),
        {
            proof {
                if self.wf() {
                    self.lemma_walk_extends(result@, current);
                }
            }
            result.push(current);
            current = self.half_edges[current.0].next;
        }
        proof {
            if self.wf() && result@.len() == bound + 1 {
                let s = result@.map_values(|h: HalfEdgeId| h.0 as int);
                assert forall|i: int, j: int|
                    0 <= i < s.len() && 0 <= j < s.len() && i != j implies s[i] != s[j] by {
                    assert(result@[i] != result@[j]);
                }
                lemma_distinct_bounded(s, self.nh());
            }
            assert(self.is_walk_from(result@, start, self.nh() + 1));
            let w = self.face_walk(face.0 as int);
            assert(self.is_walk_from(w, start, self.nh() + 1));
            self.lemma_walk_unique(w, result@, start, self.nh() + 1);
        }
        result
    }

    /// Adds a vertex with no outgoing half-edge and returns its id.
    pub fn add_vertex(&mut self, position: glam::Vec3, uv: glam::Vec2) -> (id: VertexId)
        ensures
            id.0 == old(self).vertices@.len(),
            final(self).vertices@ == old(self).vertices@.push(HEVertex { position, uv, outgoing: HalfEdgeId(usize::MAX) }),
            final(self).half_edges@ == old(self).half_edges@,
            final(self).faces@ == old(self).faces@,
    {
        let id = VertexId(self.vertices.len());
        self.vertices.push(HEVertex { position, uv, outgoing: HalfEdgeId(usize::MAX) });
        id
    }

    pub(crate) fn set_origin(&mut self, h: usize, x: VertexId)
        requires
            h < old(self).nh(),
        ensures
            final(self).half_edges@ == old(self).half_edges@.update(h as int, HalfEdge { origin: x, ..old(self).half_edges@[h as int] }),
            final(self).vertices@ == old(self).vertices@,
            final(self).faces@ == old(self).faces@,
    {
        let mut e = self.half_edges[h];
        e.origin = x;
        self.half_edges.set(h, e);
    }

    pub(crate) fn set_next(&mut self, h: usize, x: HalfEdgeId)
        requires
            h < old(self).nh(),
        ensures
            final(self).half_edges@ == old(self).half_edges@.update(h as int, HalfEdge { next: x, ..old(self).half_edges@[h as int] }),
            final(self).vertices@ == old(self).vertices@,
            final(self).faces@ == old(self).faces@,
    {
        let mut e = self.half_edges[h];
        e.next = x;
        self.half_edges.set(h, e);
    }

    pub(crate) fn set_prev(&mut self, h: usize, x: HalfEdgeId)
        requires
            h < old(self).nh(),
        ensures
            final(self).half_edges@ == old(self).half_edges@.update(h as int, HalfEdge { prev: x, ..old(self).half_edges@[h as int] }),
            final(self).vertices@ == old(self).vertices@,
            final(self).faces@ == old(self).faces@,
    {
        let mut e = self.half_edges[h];
        e.prev = x;
        self.half_edges.set(h, e);
    }

    pub(crate) fn set_twin(&mut self, h: usize, x: HalfEdgeId)
        requires
            h < old(self).nh(),
        ensures
            final(self).half_edges@ == old(self).half_edges@.update(h as int, HalfEdge { twin: x, ..old(self).half_edges@[h as int] }),
            final(self).vertices@ == old(self).vertices@,
            final(self).faces@ == old(self).faces@,
    {
        let mut e = self.half_edges[h];
        e.twin = x;
        self.half_edges.set(h, e);
    }

    pub(crate) fn set_face_of(&mut self, h: usize, x: FaceId)
        requires
            h < old(self).nh(),
        ensures
            final(self).half_edges@ == old(self).half_edges@.update(h as int, HalfEdge { face: x, ..old(self).half_edges@[h as int] }),
            final(self).vertices@ == old(self).vertices@,
            final(self).faces@ == old(self).faces@,
    {
        let mut e = self.half_edges[h];
        e.face = x;
        self.half_edges.set(h, e);
    }

    pub(crate) fn set_outgoing(&mut self, v: usize, x: HalfEdgeId)
        requires
            v < old(self).nv(),
        ensures
            final(self).vertices@ == old(self).vertices@.update(v as int, HEVertex { outgoing: x, ..old(self).vertices@[v as int] }),
            final(self).half_edges@ == old(self).half_edges@,
            final(self).faces@ == old(self).faces@,
    {
        let mut e = self.vertices[v];
        e.outgoing = x;
        self.vertices.set(v, e);
    }

    pub(crate) fn set_face_half_edge(&mut self, f: usize, x: HalfEdgeId)
        requires
            f < old(self).nf(),
        ensures
            final(self).faces@ == old(self).faces@.update(f as int, HEFace { half_edge: x, ..old(self).faces@[f as int] }),
            final(self).half_edges@ == old(self).half_edges@,
            final(self).vertices@ == old(self).vertices@,
    {
        let mut e = self.faces[f];
        e.half_edge = x;
        self.faces.set(f, e);
    }

    /// Splits half-edge `he_id` (and its twin) at a new vertex with the given
    /// position and parameter coordinates; returns the new vertex.
    pub fn split_edge(&mut self, he_id: HalfEdgeId, position: glam::Vec3, uv: glam::Vec2) -> (v: VertexId)
        requires
            old(self).wf(),
            he_id.0 < old(self).nh(),
            old(self).nh() + 2 < usize::MAX,
        ensures
            split_edge_relation(*old(self), *final(self), he_id.0 as int, v, position, uv),
            final(self).wf(),
    {
        let ghost m0 = *self;
        let v_new = self.add_vertex(position, uv);
        let twin_id = self.half_edges[he_id.0].twin;
        let old_next = self.half_edges[he_id.0].next;
        let he_new_id = HalfEdgeId(self.half_edges.len());
        let face = self.half_edges[he_id.0].face;
        let cut = self.half_edges[he_id.0].cut;
        self.half_edges.push(HalfEdge {
            origin: v_new,
            twin: HalfEdgeId(usize::MAX),
            next: old_next,
            prev: he_id,
            face,
            cut,
        });
        self.set_next(he_id.0, he_new_id);
        self.set_prev(old_next.0, he_new_id);
        if twin_id.0 != usize::MAX {
            let old_twin_next = self.half_edges[twin_id.0].next;
            let twin_new_id = HalfEdgeId(self.half_edges.len());
            let tface = self.half_edges[twin_id.0].face;
            let tcut = self.half_edges[twin_id.0].cut;
            self.half_edges.push(HalfEdge {
                origin: v_new,
                twin: he_new_id,
                next: old_twin_next,
                prev: twin_id,
                face: tface,
                cut: tcut,
            });
            self.set_next(twin_id.0, twin_new_id);
            self.set_prev(old_twin_next.0, twin_new_id);
            self.set_twin(he_new_id.0, twin_id);
            self.set_twin(twin_id.0, he_new_id);
            self.set_twin(twin_new_id.0, he_id);
            self.set_twin(he_id.0, twin_new_id);
        }
        self.set_outgoing(v_new.0, he_new_id);
        proof {
            let m1 = *self;
            let n0 = m0.nh();
            assert(m0.link_ok(he_id.0 as int));
            assert(m1.vertices@ =~= m0.vertices@.push(HEVertex { position, uv, outgoing: HalfEdgeId(n0 as usize) }));
            assert(m1.faces@ == m0.faces@);
            assert(m1.half_edges@[n0] == HalfEdge {
                origin: v_new,
                twin: if twin_id.0 != usize::MAX { twin_id } else { HalfEdgeId(usize::MAX) },
                next: old_next,
                prev: he_id,
                face,
                cut,
            });
            assert(split_edge_relation(m0, m1, he_id.0 as int, v_new, position, uv));
            lemma_split_edge_wf(m0, m1, he_id.0 as int, v_new, position, uv);
        }
        v_new
    }

    /// Whether the mesh is well-formed (see `wf`): a mesh from outside the
    /// library can be checked before it is edited.
    pub fn is_well_formed(&self) -> (r: bool)
        ensures
            r == self.wf(),
    {
        let nh = self.half_edges.len();
        let nv = self.vertices.len();
        let nf = self.faces.len();
        let mut h: usize = 0;
        while h < nh
            invariant
                nh == self.nh(),
                nv == self.nv(),
                nf == self.nf(),
                h <= nh,
                forall|j: int|
                    0 <= j < h ==> {
                        &&& (#[trigger] self.half_edges@[j]).next.0 < nh
                        &&& self.half_edges@[j].prev.0 < nh
                        &&& self.half_edges@[j].origin.0 < nv
                        &&& self.half_edges@[j].face.0 < nf
                        &&& (self.half_edges@[j].twin.0 == none_id() || self.half_edges@[j].twin.0 < nh)
                    },
            decreases nh - h,
        {
            let e = self.half_edges[h];
            if !(e.next.0 < nh && e.prev.0 < nh && e.origin.0 < nv && e.face.0 < nf && (e.twin.0 == usize::MAX
                || e.twin.0 < nh)) {
                proof {
                    assert(!self.bounded() || !self.next_bounded()) by {
                        let _ = self.half_edges@[h as int];
                    }
                }
                return false;
            }
            h = h + 1;
        }
        let mut f: usize = 0;
        while f < nf
            invariant
                nh == self.nh(),
                nf == self.nf(),
                f <= nf,
                forall|j: int| 0 <= j < f ==> (#[trigger] self.faces@[j]).half_edge.0 < nh,
            decreases nf - f,
        {
            if self.faces[f].half_edge.0 >= nh {
                proof {
                    let _ = self.faces@[f as int];
                }
                return false;
            }
            f = f + 1;
        }
        let mut v: usize = 0;
        while v < nv
            invariant
                nh == self.nh(),
                nv == self.nv(),
                v <= nv,
                forall|j: int|
                    0 <= j < v ==> ((#[trigger] self.vertices@[j]).outgoing.0 == none_id() || self.vertices@[j].outgoing.0
                        < nh),
            decreases nv - v,
        {
            let o = self.vertices[v].outgoing.0;
            if !(o == usize::MAX || o < nh) {
                proof {
                    let _ = self.vertices@[v as int];
                }
                return false;
            }
            v = v + 1;
        }
        assert(self.bounded());
        let mut h: usize = 0;
        while h < nh
            invariant
                self.bounded(),
                nh == self.nh(),
                h <= nh,
                forall|j: int| 0 <= j < h ==> #[trigger] self.link_ok(j),
            decreases nh - h,
        {
            let e = self.half_edges[h];
            let ok = self.half_edges[e.next.0].prev.0 == h && self.half_edges[e.prev.0].next.0 == h
                && self.half_edges[e.next.0].face.0 == e.face.0 && self.faces[e.face.0].valid && (e.twin.0
                == usize::MAX || (e.twin.0 != h && self.half_edges[e.twin.0].twin.0 == h));
            if !ok {
                proof {
                    assert(!self.link_ok(h as int));
                }
                return false;
            }
            h = h + 1;
        }
        let mut f: usize = 0;
        while f < nf
            invariant
                self.bounded(),
                nf == self.nf(),
                f <= nf,
                forall|j: int| 0 <= j < f ==> #[trigger] self.face_ok(j),
            decreases nf - f,
        {
            let fc = self.faces[f];
            if fc.valid && self.half_edges[fc.half_edge.0].face.0 != f {
                proof {
                    assert(!self.face_ok(f as int));
                }
                return false;
            }
            f = f + 1;
        }
        let mut v: usize = 0;
        while v < nv
            invariant
                self.bounded(),
                nv == self.nv(),
                v <= nv,
                forall|j: int| 0 <= j < v ==> #[trigger] self.vertex_ok(j),
            decreases nv - v,
        {
            let o = self.vertices[v].outgoing.0;
            if o != usize::MAX && self.half_edges[o].origin.0 != v {
                proof {
                    assert(!self.vertex_ok(v as int));
                }
                return false;
            }
            v = v + 1;
        }
        true
    }

    /// Checks twins, face cycles and vertex outgoing edges; `true` when all hold.
    pub fn validate(&self) -> (ok: bool)
        requires
            self.next_bounded(),
            self.outgoing_bounded(),
        ensures
            ok == self.passes_validation(),
    {
        let mut ok = true;
        let nh = self.half_edges.len();
        let mut i: usize = 0;
        while i < nh
            invariant
                nh == self.nh(),
                i <= nh,
                ok == forall|h: int|
                    0 <= h < i && (#[trigger] self.half_edges@[h]).twin.0 != none_id() ==> {
                        &&& self.half_edges@[h].twin.0 < self.nh()
                        &&& self.half_edges@[self.half_edges@[h].twin.0 as int].twin.0 == h
                    },
            decreases nh - i,
        {
            let t = self.half_edges[i].twin.0;
            if t != usize::MAX {
                if t >= nh {
                    ok = false;
                } else if self.half_edges[t].twin.0 != i {
                    ok = false;
                }
            }
            i = i + 1;
        }
        let ghost twins_ok = ok;
        let mut faces_ok = true;
        let nf = self.faces.len();
        let mut fi: usize = 0;
        while fi < nf
            invariant
                self.next_bounded(),
                nh == self.nh(),
                nf == self.nf(),
                fi <= nf,
                faces_ok == forall|f: int| 0 <= f < fi ==> #[trigger] self.face_passes(f),
            decreases nf - fi,
        {
            let ghost prev_ok = faces_ok;
            if !self.faces[fi].valid {
                assert(self.face_passes(fi as int));
            } else {
                if self.faces[fi].half_edge.0 >= nh {
                    faces_ok = false;
                    assert(!self.face_passes(fi as int));
                } else {
                    let hes = self.face_half_edges(FaceId(fi));
                    let mut k: usize = 0;
                    let mut this_ok = true;
                    while k < hes.len()
                        invariant
                            k <= hes@.len(),
                            forall|j: int| 0 <= j < hes@.len() ==> (#[trigger] hes@[j]).0 < self.nh(),
                            this_ok == forall|j: int| 0 <= j < k ==> self.half_edges@[(#[trigger] hes@[j]).0 as int].face.0 == fi,
                        decreases hes@.len() - k,
                    {
                        if self.half_edges[hes[k].0].face.0 != fi {
                            this_ok = false;
                        }
                        k = k + 1;
                    }
                    proof {
                        assert forall|s: Seq<HalfEdgeId>|
                            #[trigger] self.is_walk_from(s, self.faces@[fi as int].half_edge, self.nh() + 1)
                                implies s == hes@ by {
                            self.lemma_walk_unique(s, hes@, self.faces@[fi as int].half_edge, self.nh() + 1);
                        }
                    }
                    if !this_ok {
                        faces_ok = false;
                    }
                    proof {
                        if this_ok {
                            assert(self.is_walk_from(hes@, self.faces@[fi as int].half_edge, self.nh() + 1));
                            assert(self.face_passes(fi as int));
                        } else {
                            assert(self.is_walk_from(hes@, self.faces@[fi as int].half_edge, self.nh() + 1));
                            assert(!self.face_passes(fi as int));
                        }
                    }
                }
            }
            proof {
                assert(faces_ok == (prev_ok && self.face_passes(fi as int)));
                assert(faces_ok == forall|f: int| 0 <= f < fi + 1 ==> #[trigger] self.face_passes(f)) by {
                    if faces_ok {
                        assert forall|f: int| 0 <= f < fi + 1 implies #[trigger] self.face_passes(f) by {
                            if f < fi {
                            }
                        }
                    }
                }
            }
            fi = fi + 1;
        }
        let mut verts_ok = true;
        let nv = self.vertices.len();
        let mut vi: usize = 0;
        while vi < nv
            invariant
                self.outgoing_bounded(),
                nv == self.nv(),
                vi <= nv,
                verts_ok == forall|v: int|
                    0 <= v < vi && (#[trigger] self.vertices@[v]).outgoing.0 != none_id()
                        ==> self.half_edges@[self.vertices@[v].outgoing.0 as int].origin.0 == v,
            decreases nv - vi,
        {
            let o = self.vertices[vi].outgoing.0;
            if o != usize::MAX && self.half_edges[o].origin.0 != vi {
                verts_ok = false;
            }
            vi = vi + 1;
        }
        ok && faces_ok && verts_ok
    }
}

} // verus!
