//! Labelling the regions that cut curves divide a mesh into.
//!
//! Two faces are neighbours across an edge that is not marked as cut: across
//! the twin of a half-edge, or, for a half-edge without twin (an open seam),
//! across the half-edge that the caller pairs it with, when neither of the
//! two is cut and neither end of the edge is a cut point (the origin of some
//! cut half-edge).
use vstd::prelude::*;
use crate::mesh::half_edge::{none_id, FaceId, HEFace, HalfEdgeId, HalfEdgeMesh, VertexId};

verus! {

/// Vertex `v` starts some half-edge that lies on a cut curve.
pub open spec fn is_cut_point(m: HalfEdgeMesh, v: int) -> bool {
    exists|h: int| 0 <= h < m.nh() && (#[trigger] m.half_edges@[h]).cut && m.half_edges@[h].origin.0 == v
}

/// The face that the flood fill reaches across half-edge `he`, if any.
pub open spec fn across(m: HalfEdgeMesh, pairs: Seq<HalfEdgeId>, he: HalfEdgeId) -> Option<FaceId> {
    let e = m.half_edges@[he.0 as int];
    if e.cut {
        None
    } else if e.twin.0 != none_id() {
        Some(m.half_edges@[e.twin.0 as int].face)
    } else if pairs[he.0 as int].0 != none_id() {
        let pe = m.half_edges@[pairs[he.0 as int].0 as int];
        if !pe.cut && !is_cut_point(m, e.origin.0 as int) && !is_cut_point(m, m.dest_of(he).0 as int) {
            Some(pe.face)
        } else {
            None
        }
    } else {
        None
    }
}

/// Valid face `g` is reached from face `f` across one of `f`'s half-edges.
pub open spec fn crosses(m: HalfEdgeMesh, pairs: Seq<HalfEdgeId>, f: int, g: int) -> bool {
    &&& m.faces@[g].valid
    &&& exists|k: int| 0 <= k < m.face_walk(f).len() && across(m, pairs, #[trigger] m.face_walk(f)[k]) == Some(FaceId(g as usize))
}

/// Some face of `m` carries label `c`.
pub open spec fn label_used(m: HalfEdgeMesh, c: int) -> bool {
    exists|f: int| 0 <= f < m.nf() && #[trigger] m.faces@[f].component_id == Some(c as usize)
}

/// The labelling that `assign_connected_components` leaves in `m1`, for the
/// mesh `m0` it started from: nothing but the labels changed, every valid
/// face has a label below `count` and every other face none, every label
/// below `count` is used, and a face reached from a labelled face carries a
/// label no larger (so faces reached from each other share their label).
pub open spec fn labelled(m0: HalfEdgeMesh, m1: HalfEdgeMesh, pairs: Seq<HalfEdgeId>, count: int) -> bool {
    &&& m1.vertices@ == m0.vertices@
    &&& m1.half_edges@ == m0.half_edges@
    &&& m1.nf() == m0.nf()
    &&& forall|f: int| 0 <= f < m0.nf() ==> (#[trigger] m1.faces@[f]) == (HEFace { component_id: m1.faces@[f].component_id, ..m0.faces@[f] })
    &&& forall|f: int|
        0 <= f < m0.nf() ==> (#[trigger] m1.faces@[f].component_id matches Some(c) ==> 0 <= c < count)
            && (m1.faces@[f].component_id is Some <==> m0.faces@[f].valid)
    &&& forall|c: int| 0 <= c < count ==> #[trigger] label_used(m1, c)
    &&& forall|f: int, g: int|
        0 <= f < m0.nf() && 0 <= g < m0.nf() && m0.faces@[f].valid && #[trigger] crosses(m0, pairs, f, g) ==> (#[trigger] m1.faces@[g].component_id)->0
            <= m1.faces@[f].component_id->0
}

/// Faces reached from each other carry the same label.
pub proof fn lemma_mutual_neighbours_share_label(m0: HalfEdgeMesh, m1: HalfEdgeMesh, pairs: Seq<HalfEdgeId>, count: int, f: int, g: int)
    requires
        labelled(m0, m1, pairs, count),
        0 <= f < m0.nf(),
        0 <= g < m0.nf(),
        m0.faces@[f].valid,
        crosses(m0, pairs, f, g),
        crosses(m0, pairs, g, f),
    ensures
        m1.faces@[f].component_id == m1.faces@[g].component_id,
{
    assert(m0.faces@[g].valid);
    let _ = m1.faces@[f];
    let _ = m1.faces@[g];
}

/// For each vertex, whether it is a cut point.
fn cut_points(mesh: &HalfEdgeMesh) -> (r: Vec<bool>)
    requires
        mesh.bounded(),
    ensures
        r@.len() == mesh.nv(),
        forall|v: int| 0 <= v < mesh.nv() ==> (#[trigger] r@[v]) == is_cut_point(*mesh, v),
{
    let nv = mesh.vertices.len();
    let mut r: Vec<bool> = Vec::new();
    let mut i: usize = 0;
    while i < nv
        invariant
            i <= nv,
            nv == mesh.nv(),
            r@.len() == i,
            forall|v: int| 0 <= v < i ==> !(#[trigger] r@[v]),
        decreases nv - i,
    {
        r.push(false);
        i = i + 1;
    }
    let nh = mesh.half_edges.len();
    let mut h: usize = 0;
    while h < nh
        invariant
            mesh.bounded(),
            h <= nh,
            nh == mesh.nh(),
            nv == mesh.nv(),
            r@.len() == nv,
            forall|v: int|
                0 <= v < nv ==> (#[trigger] r@[v]) == exists|g: int|
                    0 <= g < h && (#[trigger] mesh.half_edges@[g]).cut && mesh.half_edges@[g].origin.0 == v,
        decreases nh - h,
    {
        proof {
            let _ = mesh.half_edges@[h as int];
        }
        if mesh.half_edges[h].cut {
            let o = mesh.half_edges[h].origin.0;
            r.set(o, true);
            proof {
                assert forall|v: int| 0 <= v < nv implies (#[trigger] r@[v]) == exists|g: int|
                    0 <= g < h + 1 && (#[trigger] mesh.half_edges@[g]).cut && mesh.half_edges@[g].origin.0 == v by {
                    if v == o {
                        assert(mesh.half_edges@[h as int].cut && mesh.half_edges@[h as int].origin.0 == v);
                    }
                }
            }
        }
        h = h + 1;
    }
    r
}

/// Two meshes with the same half-edges give a face the same walk.
proof fn lemma_same_walk(m0: HalfEdgeMesh, m1: HalfEdgeMesh, f: int, r: Seq<HalfEdgeId>)
    requires
        m1.half_edges@ == m0.half_edges@,
        m1.faces@[f].half_edge == m0.faces@[f].half_edge,
        m1.is_walk_from(r, m1.faces@[f].half_edge, m1.nh() + 1),
    ensures
        r == m0.face_walk(f),
{
    let st = m0.faces@[f].half_edge;
    assert(m0.nh() == m1.nh());
    assert forall|h: HalfEdgeId| #[trigger] m0.next_of(h) == m1.next_of(h) by {}
    assert forall|i: int| 0 <= i < r.len() - 1 implies #[trigger] m0.next_of(r[i]) == r[i + 1] by {
        assert(m1.next_of(r[i]) == r[i + 1]);
    }
    assert(r.len() < m0.nh() + 1 ==> m0.next_of(r[r.len() - 1]) == st) by {
        if r.len() < m0.nh() + 1 {
            assert(m1.next_of(r[r.len() - 1]) == st);
        }
    }
    assert(m0.is_walk_from(r, st, m0.nh() + 1));
    let w = m0.face_walk(f);
    assert(m0.is_walk_from(w, st, m0.nh() + 1));
    m0.lemma_walk_unique(w, r, st, m0.nh() + 1);
}

impl HalfEdgeMesh {
    pub(crate) fn set_component(&mut self, f: usize, x: Option<usize>)
        requires
            f < old(self).nf(),
        ensures
            final(self).faces@ == old(self).faces@.update(f as int, HEFace { component_id: x, ..old(self).faces@[f as int] }),
            final(self).half_edges@ == old(self).half_edges@,
            final(self).vertices@ == old(self).vertices@,
    {
        let mut e = self.faces[f];
        e.component_id = x;
        self.faces.set(f, e);
    }
}

/// Only the labels of faces differ between `m0` and `m`.
pub open spec fn only_labels(m0: HalfEdgeMesh, m: HalfEdgeMesh) -> bool {
    &&& m.vertices@ == m0.vertices@
    &&& m.half_edges@ == m0.half_edges@
    &&& m.nf() == m0.nf()
    &&& forall|f: int| 0 <= f < m0.nf() ==> (#[trigger] m.faces@[f]) == (HEFace { component_id: m.faces@[f].component_id, ..m0.faces@[f] })
}

/// The set of labelled faces.
pub open spec fn label_set(m: HalfEdgeMesh) -> Set<int> {
    Set::new(|f: int| 0 <= f < m.nf() && m.faces@[f].component_id is Some)
}

proof fn lemma_label_set_len(m: HalfEdgeMesh)
    ensures
        label_set(m).finite(),
        label_set(m).len() <= m.nf(),
{
    vstd::set_lib::lemma_int_range(0, m.nf());
    assert(label_set(m).subset_of(vstd::set_lib::set_int_range(0, m.nf())));
    vstd::set_lib::lemma_len_subset(label_set(m), vstd::set_lib::set_int_range(0, m.nf()));
}

/// How the flood fill reached each labelled face: label `c` was started at
/// face `seeds[c]` (which carries it), and every other face carrying `c`
/// was reached across an edge (see `crosses`) from its `parent`, a face
/// carrying `c` that was reached before it (`rank` orders the faces as they
/// were reached).
pub open spec fn fill_tree(
    m0: HalfEdgeMesh,
    m1: HalfEdgeMesh,
    pairs: Seq<HalfEdgeId>,
    seeds: Seq<int>,
    parent: Seq<int>,
    rank: Seq<int>,
) -> bool {
    &&& parent.len() == m0.nf()
    &&& rank.len() == m0.nf()
    &&& forall|c: int| 0 <= c < seeds.len() ==> 0 <= #[trigger] seeds[c] < m0.nf() && m1.faces@[seeds[c]].component_id == Some(c as usize)
    &&& forall|g: int|
        0 <= g < m0.nf() && (#[trigger] m1.faces@[g]).component_id is Some ==> {
            let c = m1.faces@[g].component_id->0 as int;
            &&& c < seeds.len()
            &&& 0 <= rank[g]
            &&& (g == seeds[c] || {
                let p = parent[g];
                &&& 0 <= p < m0.nf()
                &&& m1.faces@[p].component_id == Some(c as usize)
                &&& rank[p] < rank[g]
                &&& crosses(m0, pairs, p, g)
            })
        }
}

/// `path` leads from face `path[0]` to its last face, each step crossing
/// an edge (see `crosses`).
pub open spec fn is_fill_path(m0: HalfEdgeMesh, pairs: Seq<HalfEdgeId>, path: Seq<int>) -> bool {
    &&& path.len() >= 1
    &&& forall|k: int| 0 <= k < path.len() - 1 ==> #[trigger] crosses(m0, pairs, path[k], path[k + 1])
}

/// A region is what its first face reaches: every face with label `c` is
/// reached from the face that started label `c`.
pub proof fn lemma_region_reached_from_seed(
    m0: HalfEdgeMesh,
    m1: HalfEdgeMesh,
    pairs: Seq<HalfEdgeId>,
    seeds: Seq<int>,
    parent: Seq<int>,
    rank: Seq<int>,
    g: int,
)
    requires
        fill_tree(m0, m1, pairs, seeds, parent, rank),
        0 <= g < m0.nf(),
        m1.faces@[g].component_id is Some,
    ensures
        exists|path: Seq<int>|
            #[trigger] is_fill_path(m0, pairs, path) && path[0] == seeds[m1.faces@[g].component_id->0 as int] && path.last()
                == g,
    decreases rank[g],
{
    let c = m1.faces@[g].component_id->0 as int;
    let _ = m1.faces@[g];
    if g == seeds[c] {
        let path = seq![g];
        assert(is_fill_path(m0, pairs, path));
    } else {
        let p = parent[g];
        let _ = m1.faces@[p];
        lemma_region_reached_from_seed(m0, m1, pairs, seeds, parent, rank, p);
        let path = choose|path: Seq<int>|
            #[trigger] is_fill_path(m0, pairs, path) && path[0] == seeds[m1.faces@[p].component_id->0 as int] && path.last() == p;
        let path2 = path.push(g);
        assert forall|k: int| 0 <= k < path2.len() - 1 implies #[trigger] crosses(m0, pairs, path2[k], path2[k + 1]) by {
            if k < path.len() - 1 {
                assert(path2[k] == path[k] && path2[k + 1] == path[k + 1]);
            } else {
                assert(path2[k] == p && path2[k + 1] == g);
            }
        }
        assert(is_fill_path(m0, pairs, path2));
    }
}

/// Starting label `seeds.len()` at the unlabelled face `fi` keeps the fill
/// tree.
proof fn lemma_tree_seed(
    m0: HalfEdgeMesh,
    before: HalfEdgeMesh,
    after: HalfEdgeMesh,
    pairs: Seq<HalfEdgeId>,
    seeds: Seq<int>,
    parent: Seq<int>,
    rank: Seq<int>,
    counter: int,
    fi: int,
)
    requires
        fill_tree(m0, before, pairs, seeds, parent, rank),
        counter >= 0,
        forall|g: int| 0 <= g < m0.nf() && (#[trigger] before.faces@[g]).component_id is Some ==> rank[g] < counter,
        0 <= fi < m0.nf(),
        before.nf() == m0.nf(),
        before.faces@[fi].component_id is None,
        seeds.len() <= usize::MAX,
        after.faces@ == before.faces@.update(fi, HEFace { component_id: Some(seeds.len() as usize), ..before.faces@[fi] }),
    ensures
        fill_tree(m0, after, pairs, seeds.push(fi), parent, rank.update(fi, counter)),
        forall|g: int| 0 <= g < m0.nf() && (#[trigger] after.faces@[g]).component_id is Some ==> rank.update(fi, counter)[g] < counter + 1,
{
    let seeds2 = seeds.push(fi);
    let rank2 = rank.update(fi, counter);
    assert forall|c: int| 0 <= c < seeds2.len() implies 0 <= #[trigger] seeds2[c] < m0.nf()
        && after.faces@[seeds2[c]].component_id == Some(c as usize) by {
        if c < seeds.len() {
            assert(before.faces@[seeds[c]].component_id == Some(c as usize));
        }
    }
    assert forall|g: int| 0 <= g < m0.nf() && (#[trigger] after.faces@[g]).component_id is Some implies {
        let c = after.faces@[g].component_id->0 as int;
        &&& c < seeds2.len()
        &&& 0 <= rank2[g]
        &&& (g == seeds2[c] || {
            let p = parent[g];
            &&& 0 <= p < m0.nf()
            &&& after.faces@[p].component_id == Some(c as usize)
            &&& rank2[p] < rank2[g]
            &&& crosses(m0, pairs, p, g)
        })
    } by {
        if g != fi {
            assert(after.faces@[g] == before.faces@[g]);
            let _ = before.faces@[g];
            let c = before.faces@[g].component_id->0 as int;
            assert(seeds2[c] == seeds[c]);
            if g != seeds[c] {
                let _ = before.faces@[parent[g]];
                assert(parent[g] != fi);
                assert(after.faces@[parent[g]] == before.faces@[parent[g]]);
            }
        } else {
            assert(seeds2[seeds.len() as int] == fi);
        }
    }
    assert forall|g: int| 0 <= g < m0.nf() && (#[trigger] after.faces@[g]).component_id is Some implies rank2[g] < counter + 1 by {
        if g != fi {
            assert(before.faces@[g].component_id is Some);
        }
    }
}

/// Giving the unlabelled face `target`, reached from face `f`, the label of
/// `f` keeps the fill tree.
proof fn lemma_tree_label(
    m0: HalfEdgeMesh,
    before: HalfEdgeMesh,
    after: HalfEdgeMesh,
    pairs: Seq<HalfEdgeId>,
    seeds: Seq<int>,
    parent: Seq<int>,
    rank: Seq<int>,
    counter: int,
    target: int,
    f: int,
)
    requires
        fill_tree(m0, before, pairs, seeds, parent, rank),
        counter >= 0,
        forall|g: int| 0 <= g < m0.nf() && (#[trigger] before.faces@[g]).component_id is Some ==> rank[g] < counter,
        0 <= target < m0.nf(),
        0 <= f < m0.nf(),
        before.nf() == m0.nf(),
        before.faces@[target].component_id is None,
        before.faces@[f].component_id is Some,
        crosses(m0, pairs, f, target),
        after.faces@ == before.faces@.update(
            target,
            HEFace { component_id: before.faces@[f].component_id, ..before.faces@[target] },
        ),
    ensures
        fill_tree(m0, after, pairs, seeds, parent.update(target, f), rank.update(target, counter)),
        forall|g: int|
            0 <= g < m0.nf() && (#[trigger] after.faces@[g]).component_id is Some ==> rank.update(target, counter)[g] < counter + 1,
{
    let parent2 = parent.update(target, f);
    let rank2 = rank.update(target, counter);
    let _ = before.faces@[f];
    assert forall|c: int| 0 <= c < seeds.len() implies 0 <= #[trigger] seeds[c] < m0.nf()
        && after.faces@[seeds[c]].component_id == Some(c as usize) by {
        assert(before.faces@[seeds[c]].component_id == Some(c as usize));
    }
    assert forall|g: int| 0 <= g < m0.nf() && (#[trigger] after.faces@[g]).component_id is Some implies {
        let c = after.faces@[g].component_id->0 as int;
        &&& c < seeds.len()
        &&& 0 <= rank2[g]
        &&& (g == seeds[c] || {
            let p = parent2[g];
            &&& 0 <= p < m0.nf()
            &&& after.faces@[p].component_id == Some(c as usize)
            &&& rank2[p] < rank2[g]
            &&& crosses(m0, pairs, p, g)
        })
    } by {
        if g != target {
            let _ = before.faces@[g];
            let c = before.faces@[g].component_id->0 as int;
            if g != seeds[c] {
                let _ = before.faces@[parent[g]];
                assert(parent[g] != target);
            }
        } else {
            assert(f != target);
            assert(rank[f] < counter);
        }
    }
    assert forall|g: int| 0 <= g < m0.nf() && (#[trigger] after.faces@[g]).component_id is Some implies rank2[g] < counter + 1 by {
        if g != target {
            assert(before.faces@[g].component_id is Some);
        }
    }
}

/// Gives each valid face the label of its region: faces are taken in
/// order, and each one still unlabelled starts a new region (labels count
/// up from 0), which a flood fill spreads to every face reached across
/// edges (see the module notes; `seam_pairs[h]` pairs half-edge `h`
/// without twin with the half-edge on the other side of the seam, or is
/// `usize::MAX`). Returns the number of regions.
pub fn assign_connected_components(mesh: &mut HalfEdgeMesh, seam_pairs: &[HalfEdgeId]) -> (count: usize)
    requires
        old(mesh).wf(),
        seam_pairs@.len() == old(mesh).nh(),
        forall|h: int| 0 <= h < seam_pairs@.len() ==> (#[trigger] seam_pairs@[h]).0 == none_id() || seam_pairs@[h].0 < old(mesh).nh(),
    ensures
        labelled(*old(mesh), *final(mesh), seam_pairs@, count as int),
        exists|seeds: Seq<int>, parent: Seq<int>, rank: Seq<int>|
            seeds.len() == count && #[trigger] fill_tree(*old(mesh), *final(mesh), seam_pairs@, seeds, parent, rank),
{
    let ghost m0 = *mesh;
    let ghost pairs = seam_pairs@;
    let ghost mut seeds: Seq<int> = Seq::empty();
    let ghost mut parent: Seq<int> = Seq::new(m0.nf() as nat, |i: int| 0int);
    let ghost mut rank: Seq<int> = Seq::new(m0.nf() as nat, |i: int| 0int);
    let ghost mut counter: int = 0;
    let cp = cut_points(mesh);
    let nf = mesh.faces.len();
    let mut i: usize = 0;
    while i < nf
        invariant
            nf == m0.nf(),
            i <= nf,
            only_labels(m0, *mesh),
            forall|f: int| 0 <= f < i ==> (#[trigger] mesh.faces@[f]).component_id is None,
        decreases nf - i,
    {
        mesh.set_component(i, None);
        i = i + 1;
    }
    let mut comp: usize = 0;
    let mut fi: usize = 0;
    while fi < nf
        invariant
            m0.wf(),
            nf == m0.nf(),
            pairs == seam_pairs@,
            pairs.len() == m0.nh(),
            forall|h: int| 0 <= h < pairs.len() ==> (#[trigger] pairs[h]).0 == none_id() || pairs[h].0 < m0.nh(),
            cp@.len() == m0.nv(),
            forall|v: int| 0 <= v < m0.nv() ==> (#[trigger] cp@[v]) == is_cut_point(m0, v),
            only_labels(m0, *mesh),
            fi <= nf,
            comp <= fi,
            fill_tree(m0, *mesh, pairs, seeds, parent, rank),
            counter >= 0,
            seeds.len() == comp,
            forall|g: int| 0 <= g < nf && (#[trigger] mesh.faces@[g]).component_id is Some ==> rank[g] < counter,
            forall|f: int|
                0 <= f < nf ==> (#[trigger] mesh.faces@[f].component_id matches Some(c) ==> c < comp)
                    && (mesh.faces@[f].component_id is Some ==> m0.faces@[f].valid),
            forall|f: int| 0 <= f < fi && m0.faces@[f].valid ==> (#[trigger] mesh.faces@[f]).component_id is Some,
            forall|c: int| 0 <= c < comp ==> #[trigger] label_used(*mesh, c),
            forall|f: int, g: int|
                0 <= f < nf && 0 <= g < nf && mesh.faces@[f].component_id is Some && #[trigger] crosses(m0, pairs, f, g) ==> (#[trigger] mesh.faces@[g].component_id) is Some
                    && mesh.faces@[g].component_id->0 <= mesh.faces@[f].component_id->0,
        decreases nf - fi,
    {
        if !mesh.faces[fi].valid || mesh.faces[fi].component_id.is_some() {
            fi = fi + 1;
            continue;
        }
        let ghost before0 = *mesh;
        mesh.set_component(fi, Some(comp));
        let mut stack: Vec<FaceId> = Vec::new();
        stack.push(FaceId(fi));
        proof {
            lemma_tree_seed(m0, before0, *mesh, pairs, seeds, parent, rank, counter, fi as int);
            seeds = seeds.push(fi as int);
            rank = rank.update(fi as int, counter);
            counter = counter + 1;
        }
        proof {
            lemma_label_set_len(*mesh);
            assert forall|c: int| 0 <= c < comp implies #[trigger] label_used(*mesh, c) by {
                assert(label_used(before0, c));
                let q = choose|q: int| 0 <= q < before0.nf() && #[trigger] before0.faces@[q].component_id == Some(c as usize);
                assert(mesh.faces@[q].component_id == Some(c as usize));
            }
            assert forall|f: int, g: int|
                0 <= f < nf && 0 <= g < nf && mesh.faces@[f].component_id is Some && !stack@.contains(FaceId(f as usize))
                    && #[trigger] crosses(m0, pairs, f, g) implies (#[trigger] mesh.faces@[g].component_id) is Some
                    && mesh.faces@[g].component_id->0 <= mesh.faces@[f].component_id->0 by {
                assert(stack@[0] == FaceId(fi));
                assert(f != fi);
                assert(before0.faces@[f].component_id is Some);
                assert(before0.faces@[g].component_id is Some);
                assert(g != fi);
            }
        }
        loop
            invariant
                m0.wf(),
                nf == m0.nf(),
                pairs == seam_pairs@,
                pairs.len() == m0.nh(),
                forall|h: int| 0 <= h < pairs.len() ==> (#[trigger] pairs[h]).0 == none_id() || pairs[h].0 < m0.nh(),
                cp@.len() == m0.nv(),
                forall|v: int| 0 <= v < m0.nv() ==> (#[trigger] cp@[v]) == is_cut_point(m0, v),
                only_labels(m0, *mesh),
                fi < nf,
                comp <= fi,
                mesh.faces@[fi as int].component_id == Some(comp),
                fill_tree(m0, *mesh, pairs, seeds, parent, rank),
                counter >= 0,
                seeds.len() == comp + 1,
                forall|g: int| 0 <= g < nf && (#[trigger] mesh.faces@[g]).component_id is Some ==> rank[g] < counter,
                forall|f: int|
                    0 <= f < nf ==> (#[trigger] mesh.faces@[f].component_id matches Some(c) ==> c <= comp)
                        && (mesh.faces@[f].component_id is Some ==> m0.faces@[f].valid),
                forall|f: int| 0 <= f < fi && m0.faces@[f].valid ==> (#[trigger] mesh.faces@[f]).component_id is Some,
                forall|c: int| 0 <= c < comp ==> #[trigger] label_used(*mesh, c),
                forall|k: int| 0 <= k < stack@.len() ==> (#[trigger] stack@[k]).0 < nf && mesh.faces@[stack@[k].0 as int].component_id == Some(comp),
                forall|f: int, g: int|
                    0 <= f < nf && 0 <= g < nf && mesh.faces@[f].component_id is Some && !stack@.contains(FaceId(f as usize))
                        && #[trigger] crosses(m0, pairs, f, g) ==> (#[trigger] mesh.faces@[g].component_id) is Some
                        && mesh.faces@[g].component_id->0 <= mesh.faces@[f].component_id->0,
                label_set(*mesh).finite(),
                label_set(*mesh).len() <= nf,
            ensures
                stack@.len() == 0,
            decreases nf - label_set(*mesh).len(), stack@.len(),
        {
            if stack.len() == 0 {
                break;
            }
            let ghost st_full = stack@;
            let f = stack.pop().unwrap();
            let ghost popped = stack@;
            proof {
                assert(st_full =~= popped.push(f));
            }
            let ghost l0 = label_set(*mesh).len();
            let hes = mesh.face_half_edges(f);
            proof {
                lemma_same_walk(m0, *mesh, f.0 as int, hes@);
                assert(stack@ == popped);
                assert forall|q: int, g: int|
                    0 <= q < nf && 0 <= g < nf && q != f.0 && mesh.faces@[q].component_id is Some && !stack@.contains(FaceId(q as usize))
                        && #[trigger] crosses(m0, pairs, q, g) implies (#[trigger] mesh.faces@[g].component_id) is Some
                        && mesh.faces@[g].component_id->0 <= mesh.faces@[q].component_id->0 by {
                    assert(!st_full.contains(FaceId(q as usize))) by {
                        if st_full.contains(FaceId(q as usize)) {
                            let i = choose|i: int| 0 <= i < st_full.len() && st_full[i] == FaceId(q as usize);
                            if i < popped.len() {
                                assert(popped[i] == FaceId(q as usize));
                            }
                        }
                    }
                }
            }
            let mut k: usize = 0;
            while k < hes.len()
                invariant
                    m0.wf(),
                    nf == m0.nf(),
                    pairs == seam_pairs@,
                    pairs.len() == m0.nh(),
                    forall|h: int| 0 <= h < pairs.len() ==> (#[trigger] pairs[h]).0 == none_id() || pairs[h].0 < m0.nh(),
                    cp@.len() == m0.nv(),
                    forall|v: int| 0 <= v < m0.nv() ==> (#[trigger] cp@[v]) == is_cut_point(m0, v),
                    only_labels(m0, *mesh),
                    fi < nf,
                    comp <= fi,
                    f.0 < nf,
                    fill_tree(m0, *mesh, pairs, seeds, parent, rank),
                    counter >= 0,
                    seeds.len() == comp + 1,
                    forall|g: int| 0 <= g < nf && (#[trigger] mesh.faces@[g]).component_id is Some ==> rank[g] < counter,
                    mesh.faces@[f.0 as int].component_id == Some(comp),
                    hes@ == m0.face_walk(f.0 as int),
                    forall|j: int| 0 <= j < hes@.len() ==> (#[trigger] hes@[j]).0 < m0.nh(),
                    k <= hes@.len(),
                    mesh.faces@[fi as int].component_id == Some(comp),
                    forall|q: int|
                        0 <= q < nf ==> (#[trigger] mesh.faces@[q].component_id matches Some(c) ==> c <= comp)
                            && (mesh.faces@[q].component_id is Some ==> m0.faces@[q].valid),
                    forall|q: int| 0 <= q < fi && m0.faces@[q].valid ==> (#[trigger] mesh.faces@[q]).component_id is Some,
                    forall|c: int| 0 <= c < comp ==> #[trigger] label_used(*mesh, c),
                    forall|j: int| 0 <= j < stack@.len() ==> (#[trigger] stack@[j]).0 < nf && mesh.faces@[stack@[j].0 as int].component_id == Some(comp),
                    forall|q: int, g: int|
                        0 <= q < nf && 0 <= g < nf && q != f.0 && mesh.faces@[q].component_id is Some && !stack@.contains(FaceId(q as usize))
                            && #[trigger] crosses(m0, pairs, q, g) ==> (#[trigger] mesh.faces@[g].component_id) is Some
                            && mesh.faces@[g].component_id->0 <= mesh.faces@[q].component_id->0,
                    forall|j: int, g: int|
                        0 <= j < k && 0 <= g < nf && m0.faces@[g].valid && across(m0, pairs, #[trigger] hes@[j]) == Some(FaceId(g as usize))
                            ==> (#[trigger] mesh.faces@[g].component_id) is Some,
                    label_set(*mesh).finite(),
                    label_set(*mesh).len() <= nf,
                    label_set(*mesh).len() >= l0,
                    stack@.len() <= popped.len() + (label_set(*mesh).len() - l0),
                decreases hes@.len() - k,
            {
                let he = hes[k];
                let e = mesh.half_edges[he.0];
                proof {
                    let _ = m0.half_edges@[he.0 as int];
                    assert(m0.link_ok(he.0 as int));
                }
                let mut target: usize = usize::MAX;
                if !e.cut {
                    if e.twin.0 != usize::MAX {
                        target = mesh.half_edges[e.twin.0].face.0;
                    } else {
                        let p = seam_pairs[he.0];
                        if p.0 != usize::MAX {
                            let pe = mesh.half_edges[p.0];
                            let a = e.origin.0;
                            let b = mesh.half_edges[e.next.0].origin.0;
                            if !pe.cut && !cp[a] && !cp[b] {
                                target = pe.face.0;
                            }
                        }
                    }
                }
                proof {
                    let acr = across(m0, pairs, he);
                    assert(target != usize::MAX ==> acr == Some(FaceId(target)));
                    assert(target == usize::MAX ==> (acr matches Some(x) ==> x.0 == usize::MAX));
                    assert(target != usize::MAX ==> target < nf);
                }
                if target != usize::MAX && mesh.faces[target].valid && mesh.faces[target].component_id.is_none() {
                    let ghost before = *mesh;
                    let ghost st0 = stack@;
                    mesh.set_component(target, Some(comp));
                    stack.push(FaceId(target));
                    proof {
                        assert(crosses(m0, pairs, f.0 as int, target as int)) by {
                            assert(hes@[k as int] == m0.face_walk(f.0 as int)[k as int]);
                        }
                        lemma_tree_label(m0, before, *mesh, pairs, seeds, parent, rank, counter, target as int, f.0 as int);
                        parent = parent.update(target as int, f.0 as int);
                        rank = rank.update(target as int, counter);
                        counter = counter + 1;
                    }
                    proof {
                        assert(label_set(*mesh) =~= label_set(before).insert(target as int));
                        assert(!label_set(before).contains(target as int));
                        lemma_label_set_len(*mesh);
                        assert(stack@ =~= st0.push(FaceId(target)));
                        assert forall|q: int, g: int|
                            0 <= q < nf && 0 <= g < nf && q != f.0 && mesh.faces@[q].component_id is Some && !stack@.contains(FaceId(q as usize))
                                && #[trigger] crosses(m0, pairs, q, g) implies (#[trigger] mesh.faces@[g].component_id) is Some
                                && mesh.faces@[g].component_id->0 <= mesh.faces@[q].component_id->0 by {
                            assert(stack@[stack@.len() - 1] == FaceId(target));
                            assert(q != target);
                            assert(!st0.contains(FaceId(q as usize))) by {
                                if st0.contains(FaceId(q as usize)) {
                                    let i = choose|i: int| 0 <= i < st0.len() && st0[i] == FaceId(q as usize);
                                    assert(stack@[i] == FaceId(q as usize));
                                }
                            }
                            assert(before.faces@[q].component_id is Some);
                            assert(before.faces@[g].component_id is Some);
                            assert(g != target);
                        }
                        assert forall|c: int| 0 <= c < comp implies #[trigger] label_used(*mesh, c) by {
                            assert(label_used(before, c));
                            let q = choose|q: int| 0 <= q < before.nf() && #[trigger] before.faces@[q].component_id == Some(c as usize);
                            assert(mesh.faces@[q].component_id == Some(c as usize));
                        }
                    }
                }
                k = k + 1;
            }
            proof {
                assert forall|g: int| 0 <= g < nf && #[trigger] crosses(m0, pairs, f.0 as int, g) implies (#[trigger] mesh.faces@[g].component_id) is Some
                    && mesh.faces@[g].component_id->0 <= mesh.faces@[f.0 as int].component_id->0 by {
                    let j = choose|j: int| 0 <= j < m0.face_walk(f.0 as int).len() && across(m0, pairs, #[trigger] m0.face_walk(f.0 as int)[j]) == Some(FaceId(g as usize));
                    assert(across(m0, pairs, hes@[j]) == Some(FaceId(g as usize)));
                }
            }
        }
        proof {
            assert forall|f: int, g: int|
                0 <= f < nf && 0 <= g < nf && mesh.faces@[f].component_id is Some && #[trigger] crosses(m0, pairs, f, g) implies (#[trigger] mesh.faces@[g].component_id) is Some
                    && mesh.faces@[g].component_id->0 <= mesh.faces@[f].component_id->0 by {
                assert(!stack@.contains(FaceId(f as usize)));
            }
            assert(label_used(*mesh, comp as int)) by {
                assert(mesh.faces@[fi as int].component_id == Some(comp));
            }
        }
        comp = comp + 1;
        fi = fi + 1;
    }
    proof {
        assert(fill_tree(m0, *mesh, pairs, seeds, parent, rank));
    }
    comp
}

/// `s` lists, in increasing order, the distinct classes given to faces.
pub open spec fn class_list(s: Seq<usize>, classes: Seq<Option<usize>>) -> bool {
    &&& forall|i: int, j: int| 0 <= i < j < s.len() ==> #[trigger] s[i] < #[trigger] s[j]
    &&& forall|x: usize| #[trigger] s.contains(x) <==> has_class(classes, x)
}

/// Some face has class `x`.
pub open spec fn has_class(classes: Seq<Option<usize>>, x: usize) -> bool {
    exists|f: int| 0 <= f < classes.len() && #[trigger] classes[f] == Some(x)
}

/// Position of `x` in `s`.
pub open spec fn rank_in(s: Seq<usize>, x: usize) -> usize {
    (choose|i: int| 0 <= i < s.len() && s[i] == x) as usize
}

/// What `assign_connected_components_knot` leaves in `m1` from `m0` with
/// the class list `s`: each face with a class gets as label and patch the
/// class's rank in `s`; other faces keep theirs.
pub open spec fn classes_applied(m0: HalfEdgeMesh, m1: HalfEdgeMesh, classes: Seq<Option<usize>>, s: Seq<usize>) -> bool {
    &&& class_list(s, classes)
    &&& m1.vertices@ == m0.vertices@
    &&& m1.half_edges@ == m0.half_edges@
    &&& m1.nf() == m0.nf()
    &&& forall|f: int|
        0 <= f < m0.nf() ==> #[trigger] m1.faces@[f] == match classes[f] {
            Some(x) => HEFace { component_id: Some(rank_in(s, x)), patch_index: Some((rank_in(s, x), 0usize)), ..m0.faces@[f] },
            None => m0.faces@[f],
        }
}

/// Knot labels leave no gaps: with classes applied through the class list
/// `s`, every label below the number of classes is carried (as label and
/// as patch) by some face.
pub proof fn lemma_knot_labels_dense(
    m0: HalfEdgeMesh,
    m1: HalfEdgeMesh,
    classes: Seq<Option<usize>>,
    s: Seq<usize>,
    r: int,
)
    requires
        classes_applied(m0, m1, classes, s),
        classes.len() == m0.nf(),
        0 <= r < s.len(),
    ensures
        exists|f: int|
            0 <= f < m1.nf() && #[trigger] m1.faces@[f].component_id == Some(r as usize) && m1.faces@[f].patch_index == Some(
                (r as usize, 0usize),
            ),
{
    let x = s[r];
    assert(s.contains(x));
    assert(has_class(classes, x));
    let f = choose|f: int| 0 <= f < classes.len() && #[trigger] classes[f] == Some(x);
    let qq = choose|i: int| 0 <= i < s.len() && s[i] == x;
    assert(0 <= qq < s.len() && s[qq] == x);
    if qq < r {
        assert(s[qq] < s[r]);
    } else if qq > r {
        assert(s[r] < s[qq]);
    }
    assert(m1.faces@[f].component_id == Some(r as usize));
}

/// The distinct classes in increasing order.
fn sorted_classes(classes: &[Option<usize>]) -> (s: Vec<usize>)
    ensures
        class_list(s@, classes@),
{
    let mut s: Vec<usize> = Vec::new();
    let mut f: usize = 0;
    while f < classes.len()
        invariant
            f <= classes@.len(),
            class_list(s@, classes@.take(f as int)),
        decreases classes@.len() - f,
    {
        let ghost s0 = s@;
        match classes[f] {
            None => {
                proof {
                    lemma_class_none(s@, classes@, f as int);
                }
            },
            Some(x) => {
                let mut i: usize = 0;
                while i < s.len() && s[i] < x
                    invariant
                        i <= s@.len(),
                        s@ == s0,
                        forall|j: int| 0 <= j < i ==> #[trigger] s@[j] < x,
                    decreases s@.len() - i,
                {
                    i = i + 1;
                }
                if i < s.len() && s[i] == x {
                } else {
                    s.insert(i, x);
                }
                proof {
                    lemma_class_step(s0, s@, classes@, f as int, x, i as int);
                }
            },
        }
        f = f + 1;
    }
    proof {
        assert(classes@.take(classes@.len() as int) =~= classes@);
    }
    s
}

proof fn lemma_class_none(s: Seq<usize>, classes: Seq<Option<usize>>, f: int)
    requires
        0 <= f < classes.len(),
        classes[f] is None,
        class_list(s, classes.take(f)),
    ensures
        class_list(s, classes.take(f + 1)),
{
    let c0 = classes.take(f);
    let c1 = classes.take(f + 1);
    assert forall|y: usize| has_class(c1, y) <==> has_class(c0, y) by {
        if has_class(c1, y) {
            let g = choose|g: int| 0 <= g < c1.len() && #[trigger] c1[g] == Some(y);
            assert(g != f);
            assert(c0[g] == Some(y));
        }
        if has_class(c0, y) {
            let g = choose|g: int| 0 <= g < c0.len() && #[trigger] c0[g] == Some(y);
            assert(c1[g] == Some(y));
        }
    }
}

proof fn lemma_class_step(s0: Seq<usize>, s1: Seq<usize>, classes: Seq<Option<usize>>, f: int, x: usize, i: int)
    requires
        0 <= f < classes.len(),
        classes[f] == Some(x),
        class_list(s0, classes.take(f)),
        0 <= i <= s0.len(),
        forall|j: int| 0 <= j < i ==> #[trigger] s0[j] < x,
        i < s0.len() ==> x <= s0[i],
        (i < s0.len() && s0[i] == x) ==> s1 == s0,
        !(i < s0.len() && s0[i] == x) ==> s1 == s0.insert(i, x),
    ensures
        class_list(s1, classes.take(f + 1)),
{
    let c0 = classes.take(f);
    let c1 = classes.take(f + 1);
    assert forall|y: usize| #[trigger] s1.contains(y) <==> has_class(c1, y) by {
        if has_class(c1, y) {
            let g = choose|g: int| 0 <= g < c1.len() && #[trigger] c1[g] == Some(y);
            if g < f {
                assert(c0[g] == Some(y));
                assert(s0.contains(y));
                let q = choose|q: int| 0 <= q < s0.len() && s0[q] == y;
                if s1 != s0 {
                    if q < i {
                        assert(s1[q] == y);
                    } else {
                        assert(s1[q + 1] == y);
                    }
                }
            } else {
                assert(y == x);
                if s1 == s0 {
                    assert(s0[i] == x);
                } else {
                    assert(s1[i] == x);
                }
            }
        }
        if s1.contains(y) {
            let q = choose|q: int| 0 <= q < s1.len() && s1[q] == y;
            if s1 == s0 {
                assert(s0.contains(y));
                let g = choose|g: int| 0 <= g < c0.len() && #[trigger] c0[g] == Some(y);
                assert(c1[g] == Some(y));
            } else if q == i {
                assert(c1[f] == Some(y));
            } else {
                let q0 = if q < i { q } else { q - 1 };
                assert(s0[q0] == y);
                assert(s0.contains(y));
                let g = choose|g: int| 0 <= g < c0.len() && #[trigger] c0[g] == Some(y);
                assert(c1[g] == Some(y));
            }
        }
    }
    if s1 != s0 {
        assert forall|a: int, b: int| 0 <= a < b < s1.len() implies #[trigger] s1[a] < #[trigger] s1[b] by {
            if a < i && b < i {
                assert(s0[a] < s0[b]);
            } else if a < i && b == i {
            } else if a < i {
                assert(s0[a] < s0[b - 1]);
            } else if a == i {
                assert(x <= s0[i]);
                if b - 1 > i {
                    assert(s0[i] < s0[b - 1]);
                }
                assert(s0[i] != x);
            } else {
                assert(s0[a - 1] < s0[b - 1]);
            }
        }
    }
}

/// Labels faces by the regions that knot curves cut the torus into, from
/// each face's region class (computed by the caller from the face's
/// position; `None` for faces that get none). With `single_region` (one
/// curve, which does not separate the torus) every valid face gets label
/// and patch 0 and the result is 1. Otherwise classes are renumbered densely
/// in increasing order (see `classes_applied`) and the number of distinct
/// classes is returned.
pub fn assign_connected_components_knot(mesh: &mut HalfEdgeMesh, single_region: bool, classes: &[Option<usize>]) -> (n: usize)
    requires
        classes@.len() == old(mesh).nf(),
    ensures
        single_region ==> n == 1 && final(mesh).vertices@ == old(mesh).vertices@ && final(mesh).half_edges@ == old(mesh).half_edges@
            && final(mesh).nf() == old(mesh).nf() && forall|f: int|
            0 <= f < old(mesh).nf() ==> #[trigger] final(mesh).faces@[f] == if old(mesh).faces@[f].valid {
                HEFace { component_id: Some(0usize), patch_index: Some((0usize, 0usize)), ..old(mesh).faces@[f] }
            } else {
                old(mesh).faces@[f]
            },
        !single_region ==> exists|s: Seq<usize>| #[trigger] classes_applied(*old(mesh), *final(mesh), classes@, s) && n == s.len(),
{
    let nf = mesh.faces.len();
    if single_region {
        let mut f: usize = 0;
        while f < nf
            invariant
                nf == old(mesh).nf(),
                f <= nf,
                mesh.vertices@ == old(mesh).vertices@,
                mesh.half_edges@ == old(mesh).half_edges@,
                mesh.nf() == nf,
                forall|g: int| 0 <= g < f ==> #[trigger] mesh.faces@[g] == if old(mesh).faces@[g].valid {
                    HEFace { component_id: Some(0usize), patch_index: Some((0usize, 0usize)), ..old(mesh).faces@[g] }
                } else {
                    old(mesh).faces@[g]
                },
                forall|g: int| f <= g < nf ==> #[trigger] mesh.faces@[g] == old(mesh).faces@[g],
            decreases nf - f,
        {
            if mesh.faces[f].valid {
                let mut e = mesh.faces[f];
                e.component_id = Some(0);
                e.patch_index = Some((0, 0));
                mesh.faces.set(f, e);
            }
            f = f + 1;
        }
        return 1;
    }
    let s = sorted_classes(classes);
    let mut f: usize = 0;
    while f < nf
        invariant
            nf == old(mesh).nf(),
            classes@.len() == nf,
            class_list(s@, classes@),
            f <= nf,
            mesh.vertices@ == old(mesh).vertices@,
            mesh.half_edges@ == old(mesh).half_edges@,
            mesh.nf() == nf,
            forall|g: int| 0 <= g < f ==> #[trigger] mesh.faces@[g] == match classes@[g] {
                Some(x) => HEFace { component_id: Some(rank_in(s@, x)), patch_index: Some((rank_in(s@, x), 0usize)), ..old(mesh).faces@[g] },
                None => old(mesh).faces@[g],
            },
            forall|g: int| f <= g < nf ==> #[trigger] mesh.faces@[g] == old(mesh).faces@[g],
        decreases nf - f,
    {
        match classes[f] {
            None => {},
            Some(x) => {
                proof {
                    assert(s@.contains(x));
                }
                let slen = s.len();
                let mut i: usize = 0;
                while s[i] != x
                    invariant
                        slen == s@.len(),
                        s@.contains(x),
                        i < s@.len(),
                        forall|j: int| 0 <= j < i ==> #[trigger] s@[j] != x,
                        forall|a: int, b: int| 0 <= a < b < s@.len() ==> #[trigger] s@[a] < #[trigger] s@[b],
                    decreases s@.len() - i,
                {
                    proof {
                        let q = choose|q: int| 0 <= q < s@.len() && s@[q] == x;
                        assert(q != i);
                        if q < i {
                            assert(s@[q] != x);
                        }
                        assert(i + 1 < s@.len());
                    }
                    i = i + 1;
                }
                proof {
                    let r = rank_in(s@, x);
                    let q = choose|q: int| 0 <= q < s@.len() && s@[q] == x;
                    if q < i {
                        assert(s@[q] < s@[i as int]);
                    } else if q > i {
                        assert(s@[i as int] < s@[q]);
                    }
                }
                let mut e = mesh.faces[f];
                e.component_id = Some(i);
                e.patch_index = Some((i, 0));
                mesh.faces.set(f, e);
            },
        }
        f = f + 1;
    }
    proof {
        assert(classes_applied(*old(mesh), *mesh, classes@, s@));
    }
    s.len()
}

} // verus!
