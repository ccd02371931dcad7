//! Counting statistics of a mesh: sizes, boundary, Euler characteristic and
//! face degrees.
use vstd::prelude::*;
use crate::mesh::cut::watertight;
use crate::mesh::half_edge::{none_id, FaceId, HEFace, HalfEdge, HalfEdgeId, HalfEdgeMesh};

verus! {

/// Counts describing a mesh.
#[derive(Debug, Clone, Copy, PartialEq, Eq, Structural)]
pub struct MeshStats {
    pub vertices: usize,
    pub faces: usize,
    pub edges: usize,
    /// Half-edges without twin (0 for a closed mesh).
    pub boundary_half_edges: usize,
    /// Boundary loops found by walking the boundary (0 for a closed mesh).
    pub boundary_loops: usize,
    pub is_closed: bool,
    /// Euler characteristic `V - E + F`.
    pub euler_characteristic: i64,
    /// Sum of the corner counts of the valid faces with at least three corners.
    pub degree_sum: u128,
    /// Number of valid faces with at least three corners.
    pub polygon_faces: usize,
}

/// Number of half-edges without twin.
pub open spec fn boundary_count(m: HalfEdgeMesh) -> nat {
    m.half_edges@.filter(|e: HalfEdge| e.twin.0 == none_id()).len()
}

/// A mesh has no boundary exactly when no half-edge lacks a twin: what
/// `compute_stats` reports as closed is what the editing steps keep
/// closed (see `watertight` and `keeps`).
pub proof fn lemma_closed_iff_watertight(m: HalfEdgeMesh)
    ensures
        watertight(m) <==> boundary_count(m) == 0,
{
    let p = |e: HalfEdge| e.twin.0 == none_id();
    let s = m.half_edges@;
    if !watertight(m) {
        let h = choose|h: int| 0 <= h < m.nh() && !((#[trigger] m.half_edges@[h]).twin.0 != none_id());
        s.lemma_filter_contains(p, h);
        assert(s.filter(p).len() > 0);
    } else if s.filter(p).len() > 0 {
        let e = s.filter(p)[0];
        s.lemma_filter_pred(p, 0);
        assert(s.filter(p).contains(e));
        s.lemma_filter_contains_rev(p, e);
        let h = choose|h: int| 0 <= h < s.len() && s[h] == e;
        assert(m.half_edges@[h].twin.0 != none_id());
    }
}

/// Sum of the walk lengths of the valid faces among the first `n` whose
/// walk has at least three half-edges.
pub open spec fn degree_sum_upto(m: HalfEdgeMesh, n: int) -> int
    decreases n,
{
    if n <= 0 {
        0
    } else {
        degree_sum_upto(m, n - 1) + if m.faces@[n - 1].valid && m.face_walk(n - 1).len() >= 3 {
            m.face_walk(n - 1).len() as int
        } else {
            0
        }
    }
}

/// Number of valid faces among the first `n` whose walk has at least three
/// half-edges.
pub open spec fn polygon_count_upto(m: HalfEdgeMesh, n: int) -> int
    decreases n,
{
    if n <= 0 {
        0
    } else {
        polygon_count_upto(m, n - 1) + if m.faces@[n - 1].valid && m.face_walk(n - 1).len() >= 3 {
            1int
        } else {
            0
        }
    }
}


/// Half-edge `h` lies on the boundary: it has no twin.
pub open spec fn on_boundary(m: HalfEdgeMesh, h: int) -> bool {
    m.half_edges@[h].twin.0 == none_id()
}

/// Turning round a vertex from `cand` (through twins and `next`) in search
/// of a boundary half-edge: `cand` itself if it is on the boundary, else the
/// search goes on from the successor of its twin, and gives up on coming
/// back to `first` or after as many turns as there are half-edges.
pub open spec fn turn_to_boundary(m: HalfEdgeMesh, first: HalfEdgeId, cand: HalfEdgeId, turns: int) -> Option<int>
    decreases m.nh() - turns,
{
    if on_boundary(m, cand.0 as int) {
        Some(cand.0 as int)
    } else {
        let c2 = m.next_of(m.half_edges@[cand.0 as int].twin);
        if c2 == first || turns >= m.nh() {
            None
        } else {
            turn_to_boundary(m, first, c2, turns + 1)
        }
    }
}

/// The boundary half-edge that follows boundary half-edge `h`: the first
/// boundary half-edge met turning round the vertex where `h` ends, starting
/// from `h`'s successor.
pub open spec fn boundary_successor(m: HalfEdgeMesh, h: int) -> Option<int> {
    let first = m.half_edges@[h].next;
    turn_to_boundary(m, first, first, 0)
}

/// The half-edges marked after walking a boundary loop that started at `i`
/// and has reached `cur`, with `seen` marked before: `cur` is marked and the
/// walk goes on to its boundary successor, unless there is none, it is `i`
/// again, or it is already marked.
pub open spec fn boundary_walk(m: HalfEdgeMesh, i: int, cur: int, seen: Set<int>) -> Set<int>
    decreases m.nh() - seen.len(),
{
    if !seen.finite() || seen.contains(cur) || !(0 <= cur < m.nh()) || !seen.subset_of(
        vstd::set_lib::set_int_range(0, m.nh()),
    ) {
        seen
    } else {
        let seen2 = seen.insert(cur);
        proof {
            vstd::set_lib::lemma_int_range(0, m.nh());
            vstd::set_lib::lemma_len_subset(seen2, vstd::set_lib::set_int_range(0, m.nh()));
        }
        match boundary_successor(m, cur) {
            None => seen2,
            Some(n) => if n == i || seen2.contains(n) {
                seen2
            } else {
                boundary_walk(m, i, n, seen2)
            },
        }
    }
}

/// Boundary loops among the half-edges from `i` on, given those marked in
/// `seen`: each unmarked boundary half-edge, taken in order, starts a loop
/// whose walk marks the half-edges it passes (see `boundary_walk`).
pub open spec fn loops_from(m: HalfEdgeMesh, i: int, seen: Set<int>) -> nat
    decreases m.nh() - i,
{
    if i >= m.nh() || i < 0 {
        0
    } else if !on_boundary(m, i) || seen.contains(i) {
        loops_from(m, i + 1, seen)
    } else {
        1 + loops_from(m, i + 1, boundary_walk(m, i, i, seen))
    }
}

/// Number of boundary loops of the mesh (see `loops_from`).
pub open spec fn boundary_loop_count(m: HalfEdgeMesh) -> nat {
    loops_from(m, 0, Set::empty())
}

impl HalfEdgeMesh {
    /// Number of half-edges without twin.
    fn count_boundary_half_edges(&self) -> (n: usize)
        ensures
            n == boundary_count(*self),
    {
        let mut n: usize = 0;
        let mut i: usize = 0;
        while i < self.half_edges.len()
            invariant
                i <= self.half_edges@.len(),
                n == self.half_edges@.take(i as int).filter(|e: HalfEdge| e.twin.0 == none_id()).len(),
                n <= i,
            decreases self.half_edges@.len() - i,
        {
            proof {
                let s = self.half_edges@.take(i as int + 1);
                assert(s.drop_last() =~= self.half_edges@.take(i as int));
                reveal(Seq::filter);
                assert(s.last() == self.half_edges@[i as int]);
            }
            if self.half_edges[i].twin.0 == usize::MAX {
                n = n + 1;
            }
            i = i + 1;
        }
        assert(self.half_edges@.take(self.half_edges@.len() as int) =~= self.half_edges@);
        n
    }

    /// Number of boundary loops (see `boundary_loop_count`).
    fn count_boundary_loops(&self) -> (loops: usize)
        requires
            self.bounded(),
        ensures
            loops == boundary_loop_count(*self),
            loops <= boundary_count(*self),
            loops == 0 <==> boundary_count(*self) == 0,
    {
        let ghost m = *self;
        let hlen = self.half_edges.len();
        let mut visited: Vec<bool> = Vec::new();
        let mut k: usize = 0;
        while k < hlen
            invariant
                k <= hlen,
                visited@.len() == k,
                forall|x: int| 0 <= x < k ==> !(#[trigger] visited@[x]),
            decreases hlen - k,
        {
            visited.push(false);
            k = k + 1;
        }
        proof {
            assert(Set::new(|x: int| 0 <= x < hlen && visited@[x]) =~= Set::<int>::empty());
        }
        let mut loops: usize = 0;
        let mut i: usize = 0;
        while i < hlen
            invariant
                m == *self,
                self.bounded(),
                hlen == self.nh(),
                visited@.len() == hlen,
                i <= hlen,
                loops + loops_from(m, i as int, Set::new(|x: int| 0 <= x < hlen && visited@[x])) == boundary_loop_count(m),
                loops <= self.half_edges@.take(i as int).filter(|e: HalfEdge| e.twin.0 == none_id()).len(),
                loops == 0 <==> self.half_edges@.take(i as int).filter(|e: HalfEdge| e.twin.0 == none_id()).len() == 0,
                loops == 0 ==> forall|x: int| 0 <= x < hlen ==> !(#[trigger] visited@[x]),
            decreases hlen - i,
        {
            let ghost vis0 = Set::new(|x: int| 0 <= x < hlen && visited@[x]);
            proof {
                let s = self.half_edges@.take(i as int + 1);
                assert(s.drop_last() =~= self.half_edges@.take(i as int));
                reveal(Seq::filter);
                assert(s.last() == self.half_edges@[i as int]);
            }
            if self.half_edges[i].twin.0 != usize::MAX || visited[i] {
                proof {
                    assert(vis0.contains(i as int) <==> visited@[i as int]);
                }
                i = i + 1;
                continue;
            }
            proof {
                assert(!vis0.contains(i as int));
            }
            loops = loops + 1;
            let mut cur = i;
            let ghost mut seen: Set<int> = vis0;
            proof {
                vstd::set_lib::lemma_int_range(0, hlen as int);
                assert(seen.subset_of(vstd::set_lib::set_int_range(0, hlen as int)));
                vstd::set_lib::lemma_len_subset(seen, vstd::set_lib::set_int_range(0, hlen as int));
            }
            loop
                invariant_except_break
                    !visited@[cur as int],
                    boundary_walk(m, i as int, i as int, vis0) == boundary_walk(m, i as int, cur as int, seen),
                invariant
                    m == *self,
                    self.bounded(),
                    hlen == self.nh(),
                    visited@.len() == hlen,
                    cur < hlen,
                    i < hlen,
                    seen == Set::new(|x: int| 0 <= x < hlen && visited@[x]),
                    seen.finite(),
                    seen.len() <= hlen,
                    seen.subset_of(vstd::set_lib::set_int_range(0, hlen as int)),
                    vis0.subset_of(seen),
                    seen.contains(i as int) || cur == i,
                ensures
                    boundary_walk(m, i as int, i as int, vis0) == seen,
                    seen.contains(i as int),
                decreases hlen - seen.len(),
            {
                let ghost seen_before = seen;
                visited.set(cur, true);
                proof {
                    let s2 = Set::new(|x: int| 0 <= x < hlen && visited@[x]);
                    assert(s2 =~= seen.insert(cur as int));
                    seen = s2;
                    vstd::set_lib::lemma_int_range(0, hlen as int);
                    assert(seen.subset_of(vstd::set_lib::set_int_range(0, hlen as int)));
                    vstd::set_lib::lemma_len_subset(seen, vstd::set_lib::set_int_range(0, hlen as int));
                }
                let first = self.half_edges[cur].next;
                let mut cand = first;
                let mut found: usize = usize::MAX;
                let mut inner: usize = 0;
                loop
                    invariant_except_break
                        boundary_successor(m, cur as int) == turn_to_boundary(m, first, cand, inner as int),
                        found == usize::MAX,
                    invariant
                        m == *self,
                        self.bounded(),
                        hlen == self.nh(),
                        cur < hlen,
                        first == m.half_edges@[cur as int].next,
                        cand.0 < hlen,
                        inner <= hlen,
                    ensures
                        found == usize::MAX ==> boundary_successor(m, cur as int) is None,
                        found != usize::MAX ==> found < hlen && boundary_successor(m, cur as int) == Some(found as int),
                    decreases hlen - inner,
                {
                    proof {
                        let _ = self.half_edges@[cand.0 as int];
                    }
                    if self.half_edges[cand.0].twin.0 == usize::MAX {
                        found = cand.0;
                        break;
                    }
                    let tw = self.half_edges[cand.0].twin;
                    proof {
                        let _ = self.half_edges@[tw.0 as int];
                    }
                    let cand2 = self.half_edges[tw.0].next;
                    if cand2 == first {
                        break;
                    }
                    if inner >= hlen {
                        break;
                    }
                    inner = inner + 1;
                    cand = cand2;
                }
                if found == usize::MAX || found == i || visited[found] {
                    proof {
                        assert(found != usize::MAX ==> (seen.contains(found as int) <==> visited@[found as int]));
                    }
                    break;
                }
                proof {
                    assert(!seen.contains(found as int));
                }
                cur = found;
            }
            i = i + 1;
        }
        proof {
            assert(self.half_edges@.take(hlen as int) =~= self.half_edges@);
        }
        loops
    }

    /// Counting statistics of the mesh (see `MeshStats`).
    pub fn compute_stats(&self) -> (s: MeshStats)
        requires
            self.bounded(),
            self.nv() + self.nh() + self.nf() < i64::MAX,
        ensures
            s.vertices == self.nv(),
            s.faces == self.valid_face_count(),
            s.boundary_half_edges == boundary_count(*self),
            s.edges == (self.nh() - boundary_count(*self)) / 2 + boundary_count(*self),
            s.is_closed == (boundary_count(*self) == 0),
            s.euler_characteristic == s.vertices - s.edges + s.faces,
            s.euler_characteristic == crate::mesh::euler::euler_characteristic(*self),
            s.degree_sum == degree_sum_upto(*self, self.nf()),
            s.polygon_faces == polygon_count_upto(*self, self.nf()),
            s.boundary_loops == boundary_loop_count(*self),
            s.boundary_loops <= s.boundary_half_edges,
            s.boundary_loops == 0 <==> s.is_closed,
    {
        let vertices = self.vertices.len();
        let faces = self.num_valid_faces();
        let boundary_half_edges = self.count_boundary_half_edges();
        proof {
            assert(boundary_count(*self) <= self.nh()) by {
                let p = |e: HalfEdge| e.twin.0 == none_id();
                self.half_edges@.lemma_filter_len(p);
            }
            assert(self.valid_face_count() <= self.nf()) by {
                self.faces@.lemma_filter_len(|f: HEFace| f.valid);
            }
        }
        let edges = (self.half_edges.len() - boundary_half_edges) / 2 + boundary_half_edges;
        let is_closed = boundary_half_edges == 0;
        let euler = vertices as i64 - edges as i64 + faces as i64;
        let boundary_loops = self.count_boundary_loops();
        let mut degree_sum: u128 = 0;
        let mut face_count: usize = 0;
        let nf = self.faces.len();
        let mut fi: usize = 0;
        while fi < nf
            invariant
                self.bounded(),
                nf == self.nf(),
                fi <= nf,
                degree_sum == degree_sum_upto(*self, fi as int),
                face_count == polygon_count_upto(*self, fi as int),
                degree_sum <= fi * (self.nh() + 1),
                face_count <= fi,
            decreases nf - fi,
        {
            proof {
                assert(self.half_edges@.len() == self.half_edges.len());
                assert(fi * (self.nh() + 1) + (self.nh() + 1) == (fi + 1) * (self.nh() + 1)) by (nonlinear_arith);
                assert((fi + 1) * (self.nh() + 1) <= nf * (self.nh() + 1)) by (nonlinear_arith)
                    requires
                        fi + 1 <= nf,
                ;
                assert(nf * (self.nh() + 1) <= usize::MAX * (usize::MAX as int + 1)) by (nonlinear_arith)
                    requires
                        nf <= usize::MAX,
                        self.nh() <= usize::MAX,
                ;
                assert(usize::MAX * (usize::MAX as int + 1) < u128::MAX) by (nonlinear_arith)
                    requires
                        usize::MAX <= u64::MAX,
                ;
            }
            if self.faces[fi].valid {
                let hes = self.face_half_edges(FaceId(fi));
                if hes.len() >= 3 {
                    degree_sum = degree_sum + hes.len() as u128;
                    face_count = face_count + 1;
                }
            }
            fi = fi + 1;
        }
        MeshStats {
            vertices,
            faces,
            edges,
            boundary_half_edges,
            boundary_loops,
            is_closed,
            euler_characteristic: euler,
            degree_sum,
            polygon_faces: face_count,
        }
    }
}

} // verus!
