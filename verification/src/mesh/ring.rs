//! Walking the half-edges that leave a vertex, turning through twins.
use vstd::prelude::*;
use crate::mesh::half_edge::{none_id, HalfEdgeId, HalfEdgeMesh, VertexId};

verus! {

/// Distinct half-edges of a mesh with `n` half-edges number at most `n`.
pub proof fn lemma_distinct_len_le(s: Seq<HalfEdgeId>, n: int)
    requires
        0 <= n,
        s.no_duplicates(),
        forall|i: int| 0 <= i < s.len() ==> (#[trigger] s[i]).0 < n,
    ensures
        s.len() <= n,
{
    let t = s.map_values(|h: HalfEdgeId| h.0 as int);
    assert forall|i: int, j: int| 0 <= i < t.len() && 0 <= j < t.len() && i != j implies t[i] != t[j] by {
        assert(s[i] != s[j]);
    }
    crate::mesh::half_edge::lemma_distinct_bounded(t, n);
}

impl HalfEdgeMesh {
    /// The next half-edge leaving the origin of `h`: the successor of its twin.
    pub open spec fn ring_step(&self, h: HalfEdgeId) -> HalfEdgeId {
        self.next_of(self.half_edges@[h.0 as int].twin)
    }

    /// `s` is the start of the walk around a vertex from `start`: each member
    /// but the last has a twin and is followed by its `ring_step`, and the
    /// walk has not come back to `start`.
    pub open spec fn is_ring_prefix(&self, s: Seq<HalfEdgeId>, start: HalfEdgeId) -> bool {
        &&& s.len() >= 1
        &&& s[0] == start
        &&& forall|i: int|
            0 <= i < s.len() - 1 ==> self.half_edges@[(#[trigger] s[i]).0 as int].twin.0 != none_id()
                && self.ring_step(s[i]) == s[i + 1]
        &&& forall|i: int| 1 <= i < s.len() ==> #[trigger] s[i] != start
    }

    /// `s` is the whole walk: after its last member the walk meets a
    /// half-edge without twin or comes back to `start`.
    pub open spec fn is_ring(&self, s: Seq<HalfEdgeId>, start: HalfEdgeId) -> bool {
        &&& self.is_ring_prefix(s, start)
        &&& (self.half_edges@[s.last().0 as int].twin.0 == none_id() || self.ring_step(s.last()) == start)
    }

    /// An edge joins `v1` to `v2` as far as the walk around `v1` (from its
    /// outgoing half-edge) sees: some half-edge on that walk ends at `v2`.
    pub open spec fn connected(&self, v1: VertexId, v2: VertexId) -> bool {
        &&& self.vertices@[v1.0 as int].outgoing.0 != none_id()
        &&& exists|s: Seq<HalfEdgeId>|
            #[trigger] self.is_ring_prefix(s, self.vertices@[v1.0 as int].outgoing) && self.dest_of(s.last()) == v2
    }

    /// Two walks from the same start agree where both are defined.
    pub proof fn lemma_ring_prefix_agree(&self, s1: Seq<HalfEdgeId>, s2: Seq<HalfEdgeId>, start: HalfEdgeId, i: int)
        requires
            self.is_ring_prefix(s1, start),
            self.is_ring_prefix(s2, start),
            0 <= i < s1.len(),
            i < s2.len(),
        ensures
            s1[i] == s2[i],
        decreases i,
    {
        if i > 0 {
            self.lemma_ring_prefix_agree(s1, s2, start, i - 1);
            let _ = s1[i - 1];
            let _ = s2[i - 1];
        }
    }

    /// Every walk from `start` is a prefix of the whole walk `s`.
    pub proof fn lemma_ring_prefix_within(&self, s: Seq<HalfEdgeId>, p: Seq<HalfEdgeId>, start: HalfEdgeId)
        requires
            self.is_ring(s, start),
            self.is_ring_prefix(p, start),
        ensures
            p.len() <= s.len(),
            p.last() == s[p.len() - 1],
    {
        if p.len() > s.len() {
            let k = s.len() - 1;
            self.lemma_ring_prefix_agree(s, p, start, k);
            let _ = p[k];
            let _ = p[k + 1];
        }
        self.lemma_ring_prefix_agree(s, p, start, p.len() - 1);
    }

    /// In a well-formed mesh a walk around a vertex visits each half-edge at
    /// most once: stepping on from its last member gives a new half-edge.
    pub proof fn lemma_ring_extends(&self, s: Seq<HalfEdgeId>, start: HalfEdgeId)
        requires
            self.wf(),
            self.is_ring_prefix(s, start),
            s.no_duplicates(),
            forall|i: int| 0 <= i < s.len() ==> (#[trigger] s[i]).0 < self.nh(),
            self.half_edges@[s.last().0 as int].twin.0 != none_id(),
            self.ring_step(s.last()) != start,
        ensures
            !s.contains(self.ring_step(s.last())),
            self.ring_step(s.last()).0 < self.nh(),
            self.is_ring_prefix(s.push(self.ring_step(s.last())), start),
            s.push(self.ring_step(s.last())).no_duplicates(),
    {
        let last = s.last();
        let x = self.ring_step(last);
        let tl = self.half_edges@[last.0 as int].twin;
        assert(self.link_ok(last.0 as int));
        assert(self.link_ok(tl.0 as int));
        let _ = self.half_edges@[tl.0 as int];
        if s.contains(x) {
            let j = choose|j: int| 0 <= j < s.len() && s[j] == x;
            assert(j != 0);
            let y = s[j - 1];
            assert(self.ring_step(y) == x);
            let ty = self.half_edges@[y.0 as int].twin;
            assert(self.link_ok(y.0 as int));
            assert(self.link_ok(ty.0 as int));
            assert(self.half_edges@[x.0 as int].prev == ty);
            assert(self.half_edges@[x.0 as int].prev == tl);
            assert(y == last);
            assert(j - 1 == s.len() - 1);
        }
        let t = s.push(x);
        assert forall|i: int, j: int| 0 <= i < t.len() && 0 <= j < t.len() && i != j implies t[i] != t[j] by {
            if i < s.len() && j < s.len() {
            } else if i == s.len() {
                assert(t[j] == s[j]);
            } else {
                assert(t[i] == s[i]);
            }
        }
        assert forall|i: int| 0 <= i < t.len() - 1 implies self.half_edges@[(#[trigger] t[i]).0 as int].twin.0 != none_id()
            && self.ring_step(t[i]) == t[i + 1] by {
            if i < s.len() - 1 {
                let _ = s[i];
            }
        }
    }

    /// Whether an edge joins `v1` to `v2`, found by walking the half-edges
    /// that leave `v1` (see `connected`).
    pub fn are_vertices_connected(&self, v1: VertexId, v2: VertexId) -> (r: bool)
        requires
            self.wf(),
            v1.0 < self.nv(),
        ensures
            r == self.connected(v1, v2),
    {
        let start = self.vertices[v1.0].outgoing;
        if start.0 == usize::MAX {
            return false;
        }
        proof {
            assert(self.vertex_ok(v1.0 as int));
        }
        let mut he = start;
        let ghost mut s: Seq<HalfEdgeId> = seq![start];
        loop
            invariant
                self.wf(),
                v1.0 < self.nv(),
                start == self.vertices@[v1.0 as int].outgoing,
                start.0 < self.nh(),
                start.0 != usize::MAX,
                self.is_ring_prefix(s, start),
                s.no_duplicates(),
                forall|i: int| 0 <= i < s.len() ==> (#[trigger] s[i]).0 < self.nh(),
                he == s.last(),
                s.len() <= self.nh(),
                forall|i: int| 0 <= i < s.len() - 1 ==> self.dest_of(#[trigger] s[i]) != v2,
            decreases self.nh() - s.len(),
        {
            let nx = self.half_edges[he.0].next;
            if self.half_edges[nx.0].origin == v2 {
                proof {
                    assert(self.is_ring_prefix(s, self.vertices@[v1.0 as int].outgoing) && self.dest_of(s.last()) == v2);
                }
                return true;
            }
            let twin = self.half_edges[he.0].twin;
            if twin.0 == usize::MAX {
                proof {
                    assert(forall|i: int| 0 <= i < s.len() ==> self.dest_of(#[trigger] s[i]) != v2);
                    self.lemma_no_connection(s, start, v1, v2);
                }
                return false;
            }
            proof {
                assert(self.link_ok(he.0 as int));
            }
            he = self.half_edges[twin.0].next;
            if he == start {
                proof {
                    assert(forall|i: int| 0 <= i < s.len() ==> self.dest_of(#[trigger] s[i]) != v2);
                    self.lemma_no_connection(s, start, v1, v2);
                }
                return false;
            }
            proof {
                self.lemma_ring_extends(s, start);
                s = s.push(he);
                lemma_distinct_len_le(s, self.nh());
            }
        }
    }

    /// When the whole walk around `v1` misses `v2`, no walk prefix reaches it.
    proof fn lemma_no_connection(&self, s: Seq<HalfEdgeId>, start: HalfEdgeId, v1: VertexId, v2: VertexId)
        requires
            start == self.vertices@[v1.0 as int].outgoing,
            start.0 != none_id(),
            self.is_ring(s, start),
            forall|i: int| 0 <= i < s.len() ==> self.dest_of(#[trigger] s[i]) != v2,
        ensures
            !self.connected(v1, v2),
    {
        assert forall|p: Seq<HalfEdgeId>| #[trigger] self.is_ring_prefix(p, start) implies self.dest_of(p.last()) != v2 by {
            self.lemma_ring_prefix_within(s, p, start);
            let _ = s[p.len() - 1];
        }
    }
}

} // verus!
