//! The Euler characteristic `V - E + F` and the splits that keep it.
use vstd::prelude::*;
use crate::mesh::face_split::split_face_relation;
use crate::mesh::half_edge::{none_id, split_edge_relation, HEFace, HalfEdge, HalfEdgeMesh, VertexId};
use crate::mesh::stats::boundary_count;

verus! {

/// Number of edges: twinned half-edges pair up, a half-edge without twin is
/// an edge of its own.
pub open spec fn edge_count(m: HalfEdgeMesh) -> int {
    (m.nh() - boundary_count(m)) / 2 + boundary_count(m)
}

/// The Euler characteristic `V - E + F` over the valid faces, as
/// `compute_stats` reports it.
pub open spec fn euler_characteristic(m: HalfEdgeMesh) -> int {
    m.nv() - edge_count(m) + m.valid_face_count()
}

/// Sequences whose elements agree on `p` have filters of the same length.
proof fn lemma_filter_len_agree<A>(s0: Seq<A>, s1: Seq<A>, p: spec_fn(A) -> bool)
    requires
        s0.len() == s1.len(),
        forall|i: int| 0 <= i < s0.len() ==> p(#[trigger] s0[i]) == p(s1[i]),
    ensures
        s0.filter(p).len() == s1.filter(p).len(),
    decreases s0.len(),
{
    reveal(Seq::filter);
    if s0.len() > 0 {
        let a = s0.drop_last();
        let b = s1.drop_last();
        assert forall|i: int| 0 <= i < a.len() implies p(#[trigger] a[i]) == p(b[i]) by {
            assert(a[i] == s0[i] && b[i] == s1[i]);
        }
        lemma_filter_len_agree(a, b, p);
    }
}

/// The filter of `s1` counts those of `s0` (on which `s1` agrees) and those
/// of its tail beyond `s0`.
proof fn lemma_filter_len_extends<A>(s0: Seq<A>, s1: Seq<A>, p: spec_fn(A) -> bool)
    requires
        s0.len() <= s1.len(),
        forall|i: int| 0 <= i < s0.len() ==> p(#[trigger] s0[i]) == p(s1[i]),
    ensures
        s1.filter(p).len() == s0.filter(p).len() + s1.skip(s0.len() as int).filter(p).len(),
{
    let n = s0.len() as int;
    let t = s1.take(n);
    let u = s1.skip(n);
    assert(s1 =~= t + u);
    Seq::filter_distributes_over_add(t, u, p);
    assert forall|i: int| 0 <= i < s0.len() implies p(#[trigger] s0[i]) == p(t[i]) by {
        assert(t[i] == s1[i]);
    }
    lemma_filter_len_agree(s0, t, p);
}

/// Filter length of a one-element sequence.
proof fn lemma_filter_len_one<A>(s: Seq<A>, p: spec_fn(A) -> bool)
    requires
        s.len() == 1,
    ensures
        s.filter(p).len() == if p(s[0]) { 1int } else { 0int },
{
    reveal(Seq::filter);
    assert(s.drop_last() =~= Seq::<A>::empty());
    assert(s.drop_last().filter(p) =~= Seq::<A>::empty());
}

/// Filter length of a two-element sequence.
proof fn lemma_filter_len_two<A>(s: Seq<A>, p: spec_fn(A) -> bool)
    requires
        s.len() == 2,
    ensures
        s.filter(p).len() == (if p(s[0]) { 1int } else { 0int }) + (if p(s[1]) { 1int } else { 0int }),
{
    reveal(Seq::filter);
    lemma_filter_len_one(s.drop_last(), p);
}

/// Splitting an edge at a new vertex keeps the Euler characteristic: it
/// adds one vertex and one edge.
pub proof fn lemma_split_edge_keeps_euler(
    m0: HalfEdgeMesh,
    m1: HalfEdgeMesh,
    h: int,
    v: VertexId,
    position: glam::Vec3,
    uv: glam::Vec2,
)
    requires
        m0.wf(),
        0 <= h < m0.nh(),
        m0.nh() + 2 < usize::MAX,
        split_edge_relation(m0, m1, h, v, position, uv),
    ensures
        euler_characteristic(m1) == euler_characteristic(m0),
{
    let p = |e: HalfEdge| e.twin.0 == none_id();
    let s0 = m0.half_edges@;
    let s1 = m1.half_edges@;
    let n0 = m0.nh();
    let t = m0.half_edges@[h].twin.0;
    assert(m0.link_ok(h));
    assert forall|i: int| 0 <= i < s0.len() implies p(#[trigger] s0[i]) == p(s1[i]) by {
        let _ = m1.half_edges@[i];
    }
    lemma_filter_len_extends(s0, s1, p);
    let tail = s1.skip(n0);
    if t != none_id() {
        assert(tail.len() == 2);
        assert(tail[0] == m1.half_edges@[n0]);
        assert(tail[1] == m1.half_edges@[n0 + 1]);
        lemma_filter_len_two(tail, p);
    } else {
        assert(tail.len() == 1);
        assert(tail[0] == m1.half_edges@[n0]);
        lemma_filter_len_one(tail, p);
    }
    assert(m1.valid_face_count() == m0.valid_face_count());
}

/// Splitting a face along a new diagonal keeps the Euler characteristic: it
/// adds one edge and one face.
pub proof fn lemma_split_face_keeps_euler(
    m0: HalfEdgeMesh,
    m1: HalfEdgeMesh,
    face: int,
    va: VertexId,
    vb: VertexId,
    cut_edge: bool,
)
    requires
        0 <= face < m0.nf(),
        m0.nh() + 2 < usize::MAX,
        split_face_relation(m0, m1, face, va, vb, cut_edge),
    ensures
        euler_characteristic(m1) == euler_characteristic(m0),
{
    let p = |e: HalfEdge| e.twin.0 == none_id();
    let s0 = m0.half_edges@;
    let s1 = m1.half_edges@;
    let n0 = m0.nh();
    assert forall|i: int| 0 <= i < s0.len() implies p(#[trigger] s0[i]) == p(s1[i]) by {
        let _ = m1.half_edges@[i];
    }
    lemma_filter_len_extends(s0, s1, p);
    let tail = s1.skip(n0);
    assert(tail.len() == 2);
    assert(tail[0] == m1.half_edges@[n0]);
    assert(tail[1] == m1.half_edges@[n0 + 1]);
    lemma_filter_len_two(tail, p);
    let q = |f: HEFace| f.valid;
    let f0 = m0.faces@;
    let f1 = m1.faces@;
    assert forall|i: int| 0 <= i < f0.len() implies q(#[trigger] f0[i]) == q(f1[i]) by {
        if i != face {
            assert(m1.faces@[i] == m0.faces@[i]);
        }
    }
    lemma_filter_len_extends(f0, f1, q);
    let ft = f1.skip(f0.len() as int);
    assert(ft.len() == 1);
    assert(ft[0] == m1.faces@[m0.nf()]);
    lemma_filter_len_one(ft, q);
}

} // verus!
