//! Building a half-edge mesh from a soup of triangles or quads.
//!
//! Twins are matched by undirected edge: the first half-edge seen on an edge
//! waits for partners; each later half-edge on the same edge is paired with
//! that first one, which ends up paired with the last of them.
use vstd::prelude::*;
use crate::mesh::half_edge::{none_id, FaceId, HEFace, HEVertex, HalfEdge, HalfEdgeId, HalfEdgeMesh, VertexId};

verus! {

/// The undirected edge between `a` and `b`, smaller end first.
pub open spec fn edge_key(a: usize, b: usize) -> (usize, usize) {
    if a < b {
        (a, b)
    } else {
        (b, a)
    }
}

/// Index of the first of the first `n` keys equal to `k`, or -1.
pub open spec fn first_key(keys: Seq<(usize, usize)>, k: (usize, usize), n: int) -> int
    decreases n,
{
    if n <= 0 {
        -1
    } else {
        let f = first_key(keys, k, n - 1);
        if f >= 0 {
            f
        } else if keys[n - 1] == k {
            n - 1
        } else {
            -1
        }
    }
}

/// Index of the last of the first `n` keys equal to `k`, or -1.
pub open spec fn last_key(keys: Seq<(usize, usize)>, k: (usize, usize), n: int) -> int
    decreases n,
{
    if n <= 0 {
        -1
    } else if keys[n - 1] == k {
        n - 1
    } else {
        last_key(keys, k, n - 1)
    }
}

/// The twin that the matching gives half-edge `h` once the first `n`
/// half-edges are matched: the first one on its edge if `h` is not it,
/// otherwise the last one on its edge, if that is not `h` itself.
pub open spec fn soup_twin(keys: Seq<(usize, usize)>, n: int, h: int) -> usize {
    let f = first_key(keys, keys[h], n);
    let l = last_key(keys, keys[h], n);
    if f < h {
        f as usize
    } else if l > h {
        l as usize
    } else {
        usize::MAX
    }
}

/// Position of the last of the first `n` origins equal to `v`, or -1.
pub open spec fn last_origin_at(origins: Seq<usize>, v: usize, n: int) -> int
    decreases n,
{
    if n <= 0 {
        -1
    } else if origins[n - 1] == v {
        n - 1
    } else {
        last_origin_at(origins, v, n - 1)
    }
}

/// The outgoing half-edge a vertex ends up with: the last one leaving it.
pub open spec fn soup_outgoing(origins: Seq<usize>, v: usize) -> HalfEdgeId {
    let l = last_origin_at(origins, v, origins.len() as int);
    if l >= 0 {
        HalfEdgeId(l as usize)
    } else {
        HalfEdgeId(usize::MAX)
    }
}

/// No undirected edge is used by more than two half-edges.
pub open spec fn edges_at_most_twice(keys: Seq<(usize, usize)>) -> bool {
    forall|g1: int, g2: int, g3: int|
        0 <= g1 < g2 < g3 < keys.len() && #[trigger] keys[g1] == #[trigger] keys[g2] ==> keys[g2] != #[trigger] keys[g3]
}

/// Corner `j` of triangle `t`.
pub open spec fn tri_corner(t: (usize, usize, usize), j: int) -> usize {
    if j == 0 {
        t.0
    } else if j == 1 {
        t.1
    } else {
        t.2
    }
}

/// Corner `j` of quad `q`.
pub open spec fn quad_corner(q: (usize, usize, usize, usize), j: int) -> usize {
    if j == 0 {
        q.0
    } else if j == 1 {
        q.1
    } else if j == 2 {
        q.2
    } else {
        q.3
    }
}

/// Origins of the half-edges of a triangle soup, three per triangle.
pub open spec fn tri_origins(tris: Seq<(usize, usize, usize)>) -> Seq<usize> {
    Seq::new((3 * tris.len()) as nat, |h: int| tri_corner(tris[h / 3], h % 3))
}

/// Undirected edges of the half-edges of a triangle soup.
pub open spec fn tri_keys(tris: Seq<(usize, usize, usize)>) -> Seq<(usize, usize)> {
    Seq::new(
        (3 * tris.len()) as nat,
        |h: int| edge_key(tri_corner(tris[h / 3], h % 3), tri_corner(tris[h / 3], (h % 3 + 1) % 3)),
    )
}

/// Origins of the half-edges of a quad soup, four per quad.
pub open spec fn quad_origins(quads: Seq<(usize, usize, usize, usize)>) -> Seq<usize> {
    Seq::new((4 * quads.len()) as nat, |h: int| quad_corner(quads[h / 4], h % 4))
}

/// Undirected edges of the half-edges of a quad soup.
pub open spec fn quad_keys(quads: Seq<(usize, usize, usize, usize)>) -> Seq<(usize, usize)> {
    Seq::new(
        (4 * quads.len()) as nat,
        |h: int| edge_key(quad_corner(quads[h / 4], h % 4), quad_corner(quads[h / 4], (h % 4 + 1) % 4)),
    )
}

/// First half-edge recorded for edge `(_, w)` in a bucket, or -1.
pub open spec fn bucket_find(b: Seq<(usize, HalfEdgeId)>, w: usize) -> int
    decreases b.len(),
{
    if b.len() == 0 {
        -1
    } else {
        let r = bucket_find(b.drop_last(), w);
        if r >= 0 {
            r
        } else if b.last().0 == w {
            b.last().1.0 as int
        } else {
            -1
        }
    }
}

/// The buckets record, for every edge among the first `n` keys, its first
/// half-edge: bucket `v` answers for the edges `(v, w)`.
pub open spec fn buckets_ok(buckets: Seq<Vec<(usize, HalfEdgeId)>>, keys: Seq<(usize, usize)>, n: int) -> bool {
    forall|v: usize, w: usize| (v as int) < buckets.len() ==> #[trigger] bucket_find(buckets[v as int]@, w) == first_key(keys, (v, w), n)
}

proof fn lemma_bucket_prefix(b: Seq<(usize, HalfEdgeId)>, i: int, w: usize)
    requires
        0 <= i <= b.len(),
        bucket_find(b.take(i), w) >= 0,
    ensures
        bucket_find(b, w) == bucket_find(b.take(i), w),
    decreases b.len(),
{
    if i < b.len() {
        assert(b.drop_last().take(i) =~= b.take(i));
        lemma_bucket_prefix(b.drop_last(), i, w);
    } else {
        assert(b.take(i) =~= b);
    }
}

proof fn lemma_first_key_bounds(keys: Seq<(usize, usize)>, k: (usize, usize), n: int)
    requires
        0 <= n <= keys.len(),
    ensures
        -1 <= first_key(keys, k, n) < n,
        first_key(keys, k, n) >= 0 ==> keys[first_key(keys, k, n)] == k,
        forall|g: int| 0 <= g < n && keys[g] == k ==> first_key(keys, k, n) >= 0 && first_key(keys, k, n) <= g,
    decreases n,
{
    if n > 0 {
        lemma_first_key_bounds(keys, k, n - 1);
    }
}

proof fn lemma_last_key_bounds(keys: Seq<(usize, usize)>, k: (usize, usize), n: int)
    requires
        0 <= n <= keys.len(),
    ensures
        -1 <= last_key(keys, k, n) < n,
        last_key(keys, k, n) >= 0 ==> keys[last_key(keys, k, n)] == k,
        forall|g: int| 0 <= g < n && keys[g] == k ==> last_key(keys, k, n) >= g,
    decreases n,
{
    if n > 0 {
        lemma_last_key_bounds(keys, k, n - 1);
    }
}

proof fn lemma_last_origin_bounds(origins: Seq<usize>, v: usize, n: int)
    requires
        0 <= n <= origins.len(),
    ensures
        -1 <= last_origin_at(origins, v, n) < n,
        last_origin_at(origins, v, n) >= 0 ==> origins[last_origin_at(origins, v, n)] == v,
    decreases n,
{
    if n > 0 {
        lemma_last_origin_bounds(origins, v, n - 1);
    }
}

/// The matching pairs half-edges both ways when no edge is used more than twice.
proof fn lemma_soup_twin_mutual(keys: Seq<(usize, usize)>, h: int)
    requires
        edges_at_most_twice(keys),
        0 <= h < keys.len(),
        keys.len() < usize::MAX,
        soup_twin(keys, keys.len() as int, h) != usize::MAX,
    ensures
        ({
            let t = soup_twin(keys, keys.len() as int, h) as int;
            &&& 0 <= t < keys.len()
            &&& t != h
            &&& soup_twin(keys, keys.len() as int, t) == h
        }),
{
    let n = keys.len() as int;
    let k = keys[h];
    lemma_first_key_bounds(keys, k, n);
    lemma_last_key_bounds(keys, k, n);
    let f = first_key(keys, k, n);
    let l = last_key(keys, k, n);
    if f < h {
        // `h` is a later occurrence; the first one is matched with the last,
        // which can only be `h` itself.
        assert(keys[f] == k);
        if l != h {
            assert(keys[f] == keys[h] && keys[h] == keys[l]);
        }
        assert(l == h);
    } else {
        assert(keys[l] == k);
        assert(first_key(keys, keys[l], n) == f);
    }
}

/// A soup of `deg`-gons is fully matched up to `n` and unmatched after.
pub open spec fn twins_upto(m: HalfEdgeMesh, keys: Seq<(usize, usize)>, n: int) -> bool {
    &&& forall|g: int| 0 <= g < n ==> (#[trigger] m.half_edges@[g]).twin.0 == soup_twin(keys, n, g)
    &&& forall|g: int| n <= g < m.nh() ==> (#[trigger] m.half_edges@[g]).twin.0 == usize::MAX
}

impl HalfEdgeMesh {
    /// Matches half-edge `h`, which runs `a -> b`, against the half-edges
    /// before it.
    fn link_twin(&mut self, buckets: &mut Vec<Vec<(usize, HalfEdgeId)>>, h: usize, a: usize, b: usize, Ghost(keys): Ghost<Seq<(usize, usize)>>)
        requires
            h < old(self).nh(),
            h < keys.len(),
            keys[h as int] == edge_key(a, b),
            a < old(buckets)@.len(),
            b < old(buckets)@.len(),
            twins_upto(*old(self), keys, h as int),
            buckets_ok(old(buckets)@, keys, h as int),
        ensures
            twins_upto(*final(self), keys, h + 1),
            buckets_ok(final(buckets)@, keys, h + 1),
            final(buckets)@.len() == old(buckets)@.len(),
            final(self).vertices@ == old(self).vertices@,
            final(self).faces@ == old(self).faces@,
            final(self).nh() == old(self).nh(),
            forall|g: int| 0 <= g < old(self).nh() ==> (#[trigger] final(self).half_edges@[g]) == (HalfEdge { twin: final(self).half_edges@[g].twin, ..old(self).half_edges@[g] }),
    {
        let ghost m0 = *self;
        let ghost n = h as int;
        let (lo, hi) = if a < b { (a, b) } else { (b, a) };
        let ghost k = keys[n];
        assert(k == (lo, hi));
        proof {
            assert(bucket_find(buckets@[lo as int]@, hi) == first_key(keys, (lo, hi), n));
            lemma_first_key_bounds(keys, k, n);
        }
        let mut found: usize = usize::MAX;
        let mut i: usize = 0;
        let blen = buckets[lo].len();
        while i < blen
            invariant_except_break
                found == usize::MAX,
                bucket_find(buckets@[lo as int]@.take(i as int), hi) == -1,
            invariant
                lo < buckets@.len(),
                blen == buckets@[lo as int]@.len(),
                i <= blen,
                bucket_find(buckets@[lo as int]@, hi) < h,
            ensures
                found == usize::MAX ==> bucket_find(buckets@[lo as int]@.take(i as int), hi) == -1 && i == blen,
                found != usize::MAX ==> bucket_find(buckets@[lo as int]@, hi) == found as int,
            decreases blen - i,
        {
            let entry = buckets[lo][i];
            proof {
                let b = buckets@[lo as int]@;
                assert(b.take(i + 1).drop_last() =~= b.take(i as int));
            }
            if entry.0 == hi {
                found = entry.1.0;
                proof {
                    let b = buckets@[lo as int]@;
                    lemma_bucket_prefix(b, i + 1, hi);
                }
                break;
            }
            i = i + 1;
        }
        proof {
            let b = buckets@[lo as int]@;
            if found == usize::MAX {
                assert(b.take(blen as int) =~= b);
            }
            assert(bucket_find(b, hi) == first_key(keys, (lo, hi), n));
            lemma_first_key_bounds(keys, k, n);
            lemma_first_key_bounds(keys, k, n + 1);
            lemma_last_key_bounds(keys, k, n);
            lemma_last_key_bounds(keys, k, n + 1);
        }
        if found != usize::MAX {
            let e = found;
            self.set_twin(h, HalfEdgeId(e));
            self.set_twin(e, HalfEdgeId(h));
            proof {
                assert(first_key(keys, k, n + 1) == e);
                assert(last_key(keys, k, n + 1) == n);
                assert forall|g: int| 0 <= g < n + 1 implies (#[trigger] self.half_edges@[g]).twin.0 == soup_twin(keys, n + 1, g) by {
                    let kg = keys[g];
                    lemma_first_key_bounds(keys, kg, n);
                    lemma_last_key_bounds(keys, kg, n);
                    if kg != k {
                        assert(first_key(keys, kg, n + 1) == first_key(keys, kg, n));
                        assert(last_key(keys, kg, n + 1) == last_key(keys, kg, n));
                    } else if g != e && g != n {
                        assert(first_key(keys, kg, n) == e);
                    }
                }
                assert forall|v: usize, w: usize| (v as int) < buckets@.len() implies #[trigger] bucket_find(buckets@[v as int]@, w) == first_key(keys, (v, w), n + 1) by {
                    assert(bucket_find(buckets@[v as int]@, w) == first_key(keys, (v, w), n));
                    if (v, w) == k {
                    }
                }
            }
        } else {
            buckets[lo].push((hi, HalfEdgeId(h)));
            proof {
                assert(first_key(keys, k, n) == -1);
                assert(first_key(keys, k, n + 1) == n);
                assert(last_key(keys, k, n + 1) == n);
                assert forall|g: int| 0 <= g < n + 1 implies (#[trigger] self.half_edges@[g]).twin.0 == soup_twin(keys, n + 1, g) by {
                    let kg = keys[g];
                    lemma_first_key_bounds(keys, kg, n);
                    lemma_last_key_bounds(keys, kg, n);
                    if g < n {
                        assert(kg != k);
                        assert(first_key(keys, kg, n + 1) == first_key(keys, kg, n));
                        assert(last_key(keys, kg, n + 1) == last_key(keys, kg, n));
                    }
                }
                assert forall|v: usize, w: usize| (v as int) < buckets@.len() implies #[trigger] bucket_find(buckets@[v as int]@, w) == first_key(keys, (v, w), n + 1) by {
                    let kk = (v, w);
                    assert(bucket_find(old(buckets)@[v as int]@, w) == first_key(keys, kk, n));
                    if kk != k {
                        assert(first_key(keys, kk, n + 1) == first_key(keys, kk, n));
                    }
                    if v == lo {
                        let bb = buckets@[v as int]@;
                        assert(bb.drop_last() =~= old(buckets)@[v as int]@);
                        assert(bb.last() == (hi, HalfEdgeId(h)));
                        if w == hi {
                            assert(kk == k);
                        }
                    } else {
                        assert(buckets@[v as int] == old(buckets)@[v as int]);
                    }
                }
            }
        }
    }
}

/// The outgoing half-edge a vertex has once the first `n` half-edges are in.
pub open spec fn prefix_outgoing(origins: Seq<usize>, v: usize, n: int) -> HalfEdgeId {
    let l = last_origin_at(origins, v, n);
    if l >= 0 {
        HalfEdgeId(l as usize)
    } else {
        HalfEdgeId(usize::MAX)
    }
}

/// Successor of half-edge `h` in its triangle.
pub open spec fn tri_next(h: int) -> int {
    if h % 3 == 2 {
        h - 2
    } else {
        h + 1
    }
}

/// Predecessor of half-edge `h` in its triangle.
pub open spec fn tri_prev(h: int) -> int {
    if h % 3 == 0 {
        h + 2
    } else {
        h - 1
    }
}

/// Half-edge `h` of a triangle soup, apart from its twin.
pub open spec fn tri_he(tris: Seq<(usize, usize, usize)>, h: int) -> HalfEdge {
    HalfEdge {
        origin: VertexId(tri_origins(tris)[h]),
        twin: HalfEdgeId(usize::MAX),
        next: HalfEdgeId(tri_next(h) as usize),
        prev: HalfEdgeId(tri_prev(h) as usize),
        face: FaceId((h / 3) as usize),
        cut: false,
    }
}

/// The mesh that `from_triangles` builds, as far as its first `k`
/// triangles go: vertices carry the given positions (and coordinates where
/// given) and their last outgoing half-edge so far; triangle `q` owns
/// half-edges `3q .. 3q + 3` and names the first; twins are matched so far.
pub open spec fn tri_built(
    m: HalfEdgeMesh,
    positions: Seq<glam::Vec3>,
    uvs: Seq<glam::Vec2>,
    tris: Seq<(usize, usize, usize)>,
    k: int,
) -> bool {
    &&& m.nv() == positions.len()
    &&& m.nv() <= usize::MAX
    &&& m.nh() == 3 * k
    &&& m.nf() == k
    &&& forall|i: int|
        0 <= i < m.nv() ==> {
            &&& (#[trigger] m.vertices@[i]).position == positions[i]
            &&& (i < uvs.len() ==> m.vertices@[i].uv == uvs[i])
            &&& m.vertices@[i].outgoing == prefix_outgoing(tri_origins(tris), i as usize, 3 * k)
        }
    &&& forall|h: int| 0 <= h < 3 * k ==> #[trigger] m.half_edges@[h] == HalfEdge { twin: m.half_edges@[h].twin, ..tri_he(tris, h) }
    &&& forall|q: int|
        0 <= q < k ==> #[trigger] m.faces@[q] == HEFace {
            half_edge: HalfEdgeId((3 * q) as usize),
            valid: true,
            patch_index: None,
            component_id: None,
        }
    &&& twins_upto(m, tri_keys(tris), 3 * k)
}

proof fn lemma_div3(q: int, j: int)
    requires
        0 <= q,
        0 <= j < 3,
    ensures
        (3 * q + j) / 3 == q,
        (3 * q + j) % 3 == j,
{
}

proof fn lemma_div4(q: int, j: int)
    requires
        0 <= q,
        0 <= j < 4,
    ensures
        (4 * q + j) / 4 == q,
        (4 * q + j) % 4 == j,
{
}

/// One empty bucket per vertex.
fn empty_buckets(nv: usize) -> (b: Vec<Vec<(usize, HalfEdgeId)>>)
    ensures
        b@.len() == nv,
        forall|v: int| 0 <= v < nv ==> (#[trigger] b@[v])@.len() == 0,
{
    let mut b: Vec<Vec<(usize, HalfEdgeId)>> = Vec::new();
    let mut i: usize = 0;
    while i < nv
        invariant
            i <= nv,
            b@.len() == i,
            forall|v: int| 0 <= v < i ==> (#[trigger] b@[v])@.len() == 0,
        decreases nv - i,
    {
        b.push(Vec::new());
        i = i + 1;
    }
    b
}

/// The vertices of a soup: given positions, given coordinates where there
/// are some, no outgoing half-edge yet.
fn soup_vertices(positions: &[glam::Vec3], uvs: &[glam::Vec2]) -> (vs: Vec<HEVertex>)
    ensures
        vs@.len() == positions@.len(),
        forall|i: int|
            0 <= i < vs@.len() ==> {
                &&& (#[trigger] vs@[i]).position == positions@[i]
                &&& (i < uvs@.len() ==> vs@[i].uv == uvs@[i])
                &&& vs@[i].outgoing == HalfEdgeId(usize::MAX)
            },
{
    let mut vs: Vec<HEVertex> = Vec::new();
    let mut i: usize = 0;
    while i < positions.len()
        invariant
            i <= positions@.len(),
            vs@.len() == i,
            forall|j: int|
                0 <= j < i ==> {
                    &&& (#[trigger] vs@[j]).position == positions@[j]
                    &&& (j < uvs@.len() ==> vs@[j].uv == uvs@[j])
                    &&& vs@[j].outgoing == HalfEdgeId(usize::MAX)
                },
        decreases positions@.len() - i,
    {
        let uv = if i < uvs.len() {
            uvs[i]
        } else {
            crate::geom::uv_origin()
        };
        vs.push(HEVertex { position: positions[i], uv, outgoing: HalfEdgeId(usize::MAX) });
        i = i + 1;
    }
    vs
}

impl HalfEdgeMesh {
    /// Builds a mesh from a triangle soup: vertex `i` gets `positions[i]` and
    /// `uvs[i]` (where given), triangle `q = (v0, v1, v2)` becomes face `q`
    /// with half-edges `3q: v0 -> v1`, `3q + 1: v1 -> v2`, `3q + 2: v2 -> v0`.
    /// Twins are matched by undirected edge (see the module notes) and each
    /// vertex keeps the last half-edge leaving it. Vertices are not merged.
    pub fn from_triangles(positions: &[glam::Vec3], uvs: &[glam::Vec2], face_triplets: &[(usize, usize, usize)]) -> (r: HalfEdgeMesh)
        requires
            forall|q: int|
                0 <= q < face_triplets@.len() ==> (#[trigger] face_triplets@[q]).0 < positions@.len()
                    && face_triplets@[q].1 < positions@.len() && face_triplets@[q].2 < positions@.len(),
            3 * face_triplets@.len() + 3 < usize::MAX,
        ensures
            tri_built(r, positions@, uvs@, face_triplets@, face_triplets@.len() as int),
            forall|h: int| 0 <= h < r.nh() ==> (#[trigger] r.half_edges@[h]).twin.0 == soup_twin(tri_keys(face_triplets@), r.nh(), h),
            forall|i: int| 0 <= i < r.nv() ==> (#[trigger] r.vertices@[i]).outgoing == soup_outgoing(tri_origins(face_triplets@), i as usize),
            r.bounded(),
            edges_at_most_twice(tri_keys(face_triplets@)) ==> r.wf(),
    {
        let ghost tris = face_triplets@;
        let ghost keys = tri_keys(tris);
        let ghost origins = tri_origins(tris);
        let mut mesh = HalfEdgeMesh::new();
        mesh.vertices = soup_vertices(positions, uvs);
        let nv = mesh.vertices.len();
        let mut buckets = empty_buckets(nv);
        proof {
            assert forall|v: usize, w: usize| (v as int) < buckets@.len() implies #[trigger] bucket_find(buckets@[v as int]@, w) == first_key(keys, (v, w), 0) by {
                assert(buckets@[v as int]@.len() == 0);
            }
        }
        let mut k: usize = 0;
        while k < face_triplets.len()
            invariant
                tris == face_triplets@,
                keys == tri_keys(tris),
                origins == tri_origins(tris),
                forall|q: int|
                    0 <= q < tris.len() ==> (#[trigger] tris[q]).0 < positions@.len() && tris[q].1 < positions@.len()
                        && tris[q].2 < positions@.len(),
                3 * tris.len() + 3 < usize::MAX,
                k <= tris.len(),
                nv == positions@.len(),
                buckets@.len() == nv,
                tri_built(mesh, positions@, uvs@, tris, k as int),
                buckets_ok(buckets@, keys, 3 * k),
            decreases tris.len() - k,
        {
            let (v0, v1, v2) = face_triplets[k];
            let base = mesh.half_edges.len();
            let face_id = FaceId(mesh.faces.len());
            let he0 = HalfEdgeId(base);
            let he1 = HalfEdgeId(base + 1);
            let he2 = HalfEdgeId(base + 2);
            mesh.half_edges.push(HalfEdge { origin: VertexId(v0), twin: HalfEdgeId(usize::MAX), next: he1, prev: he2, face: face_id, cut: false });
            mesh.half_edges.push(HalfEdge { origin: VertexId(v1), twin: HalfEdgeId(usize::MAX), next: he2, prev: he0, face: face_id, cut: false });
            mesh.half_edges.push(HalfEdge { origin: VertexId(v2), twin: HalfEdgeId(usize::MAX), next: he0, prev: he1, face: face_id, cut: false });
            mesh.faces.push(HEFace { half_edge: he0, valid: true, patch_index: None, component_id: None });
            mesh.set_outgoing(v0, he0);
            mesh.set_outgoing(v1, he1);
            mesh.set_outgoing(v2, he2);
            proof {
                let q = k as int;
                lemma_div3(q, 0);
                lemma_div3(q, 1);
                lemma_div3(q, 2);
                assert(keys[3 * q] == edge_key(v0, v1));
                assert(keys[3 * q + 1] == edge_key(v1, v2));
                assert(keys[3 * q + 2] == edge_key(v2, v0));
                assert(origins[3 * q] == v0);
                assert(origins[3 * q + 1] == v1);
                assert(origins[3 * q + 2] == v2);
            }
            mesh.link_twin(&mut buckets, base, v0, v1, Ghost(keys));
            mesh.link_twin(&mut buckets, base + 1, v1, v2, Ghost(keys));
            mesh.link_twin(&mut buckets, base + 2, v2, v0, Ghost(keys));
            proof {
                let q = k as int;
                lemma_div3(q, 0);
                lemma_div3(q, 1);
                lemma_div3(q, 2);
                assert forall|h: int| 0 <= h < 3 * (q + 1) implies #[trigger] mesh.half_edges@[h] == (HalfEdge { twin: mesh.half_edges@[h].twin, ..tri_he(tris, h) }) by {
                    if h >= 3 * q {
                        lemma_div3(q, h - 3 * q);
                    }
                }
                assert forall|i: int| 0 <= i < mesh.nv() implies (#[trigger] mesh.vertices@[i]).outgoing == prefix_outgoing(origins, i as usize, 3 * (q + 1)) by {
                    let iu = i as usize;
                    assert(iu as int == i);
                    assert(last_origin_at(origins, iu, 3 * q + 1) == if origins[3 * q] == iu { 3 * q } else { last_origin_at(origins, iu, 3 * q) });
                    assert(last_origin_at(origins, iu, 3 * q + 2) == if origins[3 * q + 1] == iu { 3 * q + 1 } else { last_origin_at(origins, iu, 3 * q + 1) });
                    assert(last_origin_at(origins, iu, 3 * q + 3) == if origins[3 * q + 2] == iu { 3 * q + 2 } else { last_origin_at(origins, iu, 3 * q + 2) });
                }
            }
            k = k + 1;
        }
        proof {
            let n = (3 * tris.len()) as int;
            assert(mesh.nh() == n);
            lemma_tri_soup_bounded(mesh, positions@, uvs@, tris);
            if edges_at_most_twice(keys) {
                lemma_tri_soup_wf(mesh, positions@, uvs@, tris);
            }
        }
        mesh
    }
}

/// The mesh built from a triangle soup keeps every index in range.
proof fn lemma_tri_soup_bounded(m: HalfEdgeMesh, positions: Seq<glam::Vec3>, uvs: Seq<glam::Vec2>, tris: Seq<(usize, usize, usize)>)
    requires
        tri_built(m, positions, uvs, tris, tris.len() as int),
        forall|q: int| 0 <= q < tris.len() ==> (#[trigger] tris[q]).0 < positions.len() && tris[q].1 < positions.len() && tris[q].2 < positions.len(),
        3 * tris.len() + 3 < usize::MAX,
    ensures
        m.bounded(),
{
    let n = (3 * tris.len()) as int;
    let keys = tri_keys(tris);
    let origins = tri_origins(tris);
    assert forall|h: int| 0 <= h < m.nh() implies {
        &&& (#[trigger] m.half_edges@[h]).next.0 < m.nh()
        &&& m.half_edges@[h].prev.0 < m.nh()
        &&& m.half_edges@[h].origin.0 < m.nv()
        &&& m.half_edges@[h].face.0 < m.nf()
        &&& (m.half_edges@[h].twin.0 == none_id() || m.half_edges@[h].twin.0 < m.nh())
    } by {
        let q = h / 3;
        let j = h % 3;
        lemma_div3(q, j);
        let _ = tris[q];
        lemma_first_key_bounds(keys, keys[h], n);
        lemma_last_key_bounds(keys, keys[h], n);
    }
    assert forall|f: int| 0 <= f < m.nf() implies (#[trigger] m.faces@[f]).half_edge.0 < m.nh() by {}
    assert forall|v: int| 0 <= v < m.nv() implies ((#[trigger] m.vertices@[v]).outgoing.0 == none_id() || m.vertices@[v].outgoing.0 < m.nh()) by {
        lemma_last_origin_bounds(origins, v as usize, n);
    }
}

/// A triangle soup in which no undirected edge is used more than twice
/// builds a well-formed mesh.
proof fn lemma_tri_soup_wf(m: HalfEdgeMesh, positions: Seq<glam::Vec3>, uvs: Seq<glam::Vec2>, tris: Seq<(usize, usize, usize)>)
    requires
        tri_built(m, positions, uvs, tris, tris.len() as int),
        m.bounded(),
        edges_at_most_twice(tri_keys(tris)),
        3 * tris.len() + 3 < usize::MAX,
    ensures
        m.wf(),
{
    let n = (3 * tris.len()) as int;
    let keys = tri_keys(tris);
    let origins = tri_origins(tris);
    assert forall|h: int| 0 <= h < m.nh() implies #[trigger] m.link_ok(h) by {
        let q = h / 3;
        let j = h % 3;
        lemma_div3(q, j);
        lemma_div3(q, 0);
        lemma_div3(q, 1);
        lemma_div3(q, 2);
        let _ = m.half_edges@[3 * q];
        let _ = m.half_edges@[3 * q + 1];
        let _ = m.half_edges@[3 * q + 2];
        let _ = m.faces@[q];
        if m.half_edges@[h].twin.0 != none_id() {
            lemma_soup_twin_mutual(keys, h);
            let _ = m.half_edges@[m.half_edges@[h].twin.0 as int];
        }
    }
    assert forall|f: int| 0 <= f < m.nf() implies #[trigger] m.face_ok(f) by {
        lemma_div3(f, 0);
        let _ = m.half_edges@[3 * f];
    }
    assert forall|v: int| 0 <= v < m.nv() implies #[trigger] m.vertex_ok(v) by {
        lemma_last_origin_bounds(origins, v as usize, n);
        let l = last_origin_at(origins, v as usize, n);
        if l >= 0 {
            let _ = m.half_edges@[l];
        }
    }
}

/// Successor of half-edge `h` in its quad.
pub open spec fn quad_next(h: int) -> int {
    if h % 4 == 3 {
        h - 3
    } else {
        h + 1
    }
}

/// Predecessor of half-edge `h` in its quad.
pub open spec fn quad_prev(h: int) -> int {
    if h % 4 == 0 {
        h + 3
    } else {
        h - 1
    }
}

/// Half-edge `h` of a quad soup, apart from its twin.
pub open spec fn quad_he(quads: Seq<(usize, usize, usize, usize)>, h: int) -> HalfEdge {
    HalfEdge {
        origin: VertexId(quad_origins(quads)[h]),
        twin: HalfEdgeId(usize::MAX),
        next: HalfEdgeId(quad_next(h) as usize),
        prev: HalfEdgeId(quad_prev(h) as usize),
        face: FaceId((h / 4) as usize),
        cut: false,
    }
}

/// The mesh that `from_quads` builds, as far as its first `k` quads go
/// (see `tri_built`; quad `q` owns half-edges `4q .. 4q + 4`).
pub open spec fn quad_built(
    m: HalfEdgeMesh,
    positions: Seq<glam::Vec3>,
    uvs: Seq<glam::Vec2>,
    quads: Seq<(usize, usize, usize, usize)>,
    k: int,
) -> bool {
    &&& m.nv() == positions.len()
    &&& m.nv() <= usize::MAX
    &&& m.nh() == 4 * k
    &&& m.nf() == k
    &&& forall|i: int|
        0 <= i < m.nv() ==> {
            &&& (#[trigger] m.vertices@[i]).position == positions[i]
            &&& (i < uvs.len() ==> m.vertices@[i].uv == uvs[i])
            &&& m.vertices@[i].outgoing == prefix_outgoing(quad_origins(quads), i as usize, 4 * k)
        }
    &&& forall|h: int| 0 <= h < 4 * k ==> #[trigger] m.half_edges@[h] == HalfEdge { twin: m.half_edges@[h].twin, ..quad_he(quads, h) }
    &&& forall|q: int|
        0 <= q < k ==> #[trigger] m.faces@[q] == HEFace {
            half_edge: HalfEdgeId((4 * q) as usize),
            valid: true,
            patch_index: None,
            component_id: None,
        }
    &&& twins_upto(m, quad_keys(quads), 4 * k)
}

impl HalfEdgeMesh {
    /// Builds a mesh from a quad soup, like `from_triangles`: quad
    /// `q = (v0, v1, v2, v3)` becomes face `q` with half-edges `4q .. 4q + 4`
    /// running `v0 -> v1 -> v2 -> v3 -> v0`.
    pub fn from_quads(positions: &[glam::Vec3], uvs: &[glam::Vec2], face_quads: &[(usize, usize, usize, usize)]) -> (r: HalfEdgeMesh)
        requires
            forall|q: int|
                0 <= q < face_quads@.len() ==> (#[trigger] face_quads@[q]).0 < positions@.len()
                    && face_quads@[q].1 < positions@.len() && face_quads@[q].2 < positions@.len()
                    && face_quads@[q].3 < positions@.len(),
            4 * face_quads@.len() + 4 < usize::MAX,
        ensures
            quad_built(r, positions@, uvs@, face_quads@, face_quads@.len() as int),
            forall|h: int| 0 <= h < r.nh() ==> (#[trigger] r.half_edges@[h]).twin.0 == soup_twin(quad_keys(face_quads@), r.nh(), h),
            forall|i: int| 0 <= i < r.nv() ==> (#[trigger] r.vertices@[i]).outgoing == soup_outgoing(quad_origins(face_quads@), i as usize),
            r.bounded(),
            edges_at_most_twice(quad_keys(face_quads@)) ==> r.wf(),
    {
        let ghost quads = face_quads@;
        let ghost keys = quad_keys(quads);
        let ghost origins = quad_origins(quads);
        let mut mesh = HalfEdgeMesh::new();
        mesh.vertices = soup_vertices(positions, uvs);
        let nv = mesh.vertices.len();
        let mut buckets = empty_buckets(nv);
        proof {
            assert forall|v: usize, w: usize| (v as int) < buckets@.len() implies #[trigger] bucket_find(buckets@[v as int]@, w) == first_key(keys, (v, w), 0) by {
                assert(buckets@[v as int]@.len() == 0);
            }
        }
        let mut k: usize = 0;
        while k < face_quads.len()
            invariant
                quads == face_quads@,
                keys == quad_keys(quads),
                origins == quad_origins(quads),
                forall|q: int|
                    0 <= q < quads.len() ==> (#[trigger] quads[q]).0 < positions@.len() && quads[q].1 < positions@.len()
                        && quads[q].2 < positions@.len() && quads[q].3 < positions@.len(),
                4 * quads.len() + 4 < usize::MAX,
                k <= quads.len(),
                nv == positions@.len(),
                buckets@.len() == nv,
                quad_built(mesh, positions@, uvs@, quads, k as int),
                buckets_ok(buckets@, keys, 4 * k),
            decreases quads.len() - k,
        {
            let (v0, v1, v2, v3) = face_quads[k];
            let base = mesh.half_edges.len();
            let face_id = FaceId(mesh.faces.len());
            let he0 = HalfEdgeId(base);
            let he1 = HalfEdgeId(base + 1);
            let he2 = HalfEdgeId(base + 2);
            let he3 = HalfEdgeId(base + 3);
            mesh.half_edges.push(HalfEdge { origin: VertexId(v0), twin: HalfEdgeId(usize::MAX), next: he1, prev: he3, face: face_id, cut: false });
            mesh.half_edges.push(HalfEdge { origin: VertexId(v1), twin: HalfEdgeId(usize::MAX), next: he2, prev: he0, face: face_id, cut: false });
            mesh.half_edges.push(HalfEdge { origin: VertexId(v2), twin: HalfEdgeId(usize::MAX), next: he3, prev: he1, face: face_id, cut: false });
            mesh.half_edges.push(HalfEdge { origin: VertexId(v3), twin: HalfEdgeId(usize::MAX), next: he0, prev: he2, face: face_id, cut: false });
            mesh.faces.push(HEFace { half_edge: he0, valid: true, patch_index: None, component_id: None });
            mesh.set_outgoing(v0, he0);
            mesh.set_outgoing(v1, he1);
            mesh.set_outgoing(v2, he2);
            mesh.set_outgoing(v3, he3);
            proof {
                let q = k as int;
                lemma_div4(q, 0);
                lemma_div4(q, 1);
                lemma_div4(q, 2);
                lemma_div4(q, 3);
                assert(keys[4 * q] == edge_key(v0, v1));
                assert(keys[4 * q + 1] == edge_key(v1, v2));
                assert(keys[4 * q + 2] == edge_key(v2, v3));
                assert(keys[4 * q + 3] == edge_key(v3, v0));
                assert(origins[4 * q] == v0);
                assert(origins[4 * q + 1] == v1);
                assert(origins[4 * q + 2] == v2);
                assert(origins[4 * q + 3] == v3);
            }
            mesh.link_twin(&mut buckets, base, v0, v1, Ghost(keys));
            mesh.link_twin(&mut buckets, base + 1, v1, v2, Ghost(keys));
            mesh.link_twin(&mut buckets, base + 2, v2, v3, Ghost(keys));
            mesh.link_twin(&mut buckets, base + 3, v3, v0, Ghost(keys));
            proof {
                let q = k as int;
                lemma_div4(q, 0);
                lemma_div4(q, 1);
                lemma_div4(q, 2);
                lemma_div4(q, 3);
                assert forall|h: int| 0 <= h < 4 * (q + 1) implies #[trigger] mesh.half_edges@[h] == (HalfEdge { twin: mesh.half_edges@[h].twin, ..quad_he(quads, h) }) by {
                    if h >= 4 * q {
                        lemma_div4(q, h - 4 * q);
                    }
                }
                assert forall|i: int| 0 <= i < mesh.nv() implies (#[trigger] mesh.vertices@[i]).outgoing == prefix_outgoing(origins, i as usize, 4 * (q + 1)) by {
                    let iu = i as usize;
                    assert(iu as int == i);
                    assert(last_origin_at(origins, iu, 4 * q + 1) == if origins[4 * q] == iu { 4 * q } else { last_origin_at(origins, iu, 4 * q) });
                    assert(last_origin_at(origins, iu, 4 * q + 2) == if origins[4 * q + 1] == iu { 4 * q + 1 } else { last_origin_at(origins, iu, 4 * q + 1) });
                    assert(last_origin_at(origins, iu, 4 * q + 3) == if origins[4 * q + 2] == iu { 4 * q + 2 } else { last_origin_at(origins, iu, 4 * q + 2) });
                    assert(last_origin_at(origins, iu, 4 * q + 4) == if origins[4 * q + 3] == iu { 4 * q + 3 } else { last_origin_at(origins, iu, 4 * q + 3) });
                }
            }
            k = k + 1;
        }
        proof {
            lemma_quad_soup_bounded(mesh, positions@, uvs@, quads);
            if edges_at_most_twice(keys) {
                lemma_quad_soup_wf(mesh, positions@, uvs@, quads);
            }
        }
        mesh
    }
}

/// The mesh built from a quad soup keeps every index in range.
proof fn lemma_quad_soup_bounded(m: HalfEdgeMesh, positions: Seq<glam::Vec3>, uvs: Seq<glam::Vec2>, quads: Seq<(usize, usize, usize, usize)>)
    requires
        quad_built(m, positions, uvs, quads, quads.len() as int),
        forall|q: int|
            0 <= q < quads.len() ==> (#[trigger] quads[q]).0 < positions.len() && quads[q].1 < positions.len()
                && quads[q].2 < positions.len() && quads[q].3 < positions.len(),
        4 * quads.len() + 4 < usize::MAX,
    ensures
        m.bounded(),
{
    let n = (4 * quads.len()) as int;
    let keys = quad_keys(quads);
    let origins = quad_origins(quads);
    assert forall|h: int| 0 <= h < m.nh() implies {
        &&& (#[trigger] m.half_edges@[h]).next.0 < m.nh()
        &&& m.half_edges@[h].prev.0 < m.nh()
        &&& m.half_edges@[h].origin.0 < m.nv()
        &&& m.half_edges@[h].face.0 < m.nf()
        &&& (m.half_edges@[h].twin.0 == none_id() || m.half_edges@[h].twin.0 < m.nh())
    } by {
        let q = h / 4;
        let j = h % 4;
        lemma_div4(q, j);
        let _ = quads[q];
        lemma_first_key_bounds(keys, keys[h], n);
        lemma_last_key_bounds(keys, keys[h], n);
    }
    assert forall|f: int| 0 <= f < m.nf() implies (#[trigger] m.faces@[f]).half_edge.0 < m.nh() by {}
    assert forall|v: int| 0 <= v < m.nv() implies ((#[trigger] m.vertices@[v]).outgoing.0 == none_id() || m.vertices@[v].outgoing.0 < m.nh()) by {
        lemma_last_origin_bounds(origins, v as usize, n);
    }
}

/// A quad soup in which no undirected edge is used more than twice builds a
/// well-formed mesh.
proof fn lemma_quad_soup_wf(m: HalfEdgeMesh, positions: Seq<glam::Vec3>, uvs: Seq<glam::Vec2>, quads: Seq<(usize, usize, usize, usize)>)
    requires
        quad_built(m, positions, uvs, quads, quads.len() as int),
        m.bounded(),
        edges_at_most_twice(quad_keys(quads)),
        4 * quads.len() + 4 < usize::MAX,
    ensures
        m.wf(),
{
    let n = (4 * quads.len()) as int;
    let keys = quad_keys(quads);
    let origins = quad_origins(quads);
    assert forall|h: int| 0 <= h < m.nh() implies #[trigger] m.link_ok(h) by {
        let q = h / 4;
        let j = h % 4;
        lemma_div4(q, j);
        lemma_div4(q, 0);
        lemma_div4(q, 1);
        lemma_div4(q, 2);
        lemma_div4(q, 3);
        let _ = m.half_edges@[4 * q];
        let _ = m.half_edges@[4 * q + 1];
        let _ = m.half_edges@[4 * q + 2];
        let _ = m.half_edges@[4 * q + 3];
        let _ = m.faces@[q];
        if m.half_edges@[h].twin.0 != none_id() {
            lemma_soup_twin_mutual(keys, h);
            let _ = m.half_edges@[m.half_edges@[h].twin.0 as int];
        }
    }
    assert forall|f: int| 0 <= f < m.nf() implies #[trigger] m.face_ok(f) by {
        lemma_div4(f, 0);
        let _ = m.half_edges@[4 * f];
    }
    assert forall|v: int| 0 <= v < m.nv() implies #[trigger] m.vertex_ok(v) by {
        lemma_last_origin_bounds(origins, v as usize, n);
        let l = last_origin_at(origins, v as usize, n);
        if l >= 0 {
            let _ = m.half_edges@[l];
        }
    }
}

} // verus!
