//! Randomising a triangle mesh's connectivity by edge flips, driven by a
//! small linear congruential generator.
use vstd::prelude::*;
use crate::mesh::cut::keeps;
use crate::mesh::half_edge::{none_id, HalfEdgeId, HalfEdgeMesh};

verus! {

/// One step of the generator: `state * 6364136223846793005 + 1442695040888963407`
/// modulo 2^64.
pub open spec fn lcg_next(s: u64) -> u64 {
    vstd::wrapping::u64_specs::wrapping_add(vstd::wrapping::u64_specs::wrapping_mul(s, 6364136223846793005u64), 1442695040888963407u64)
}

/// The generator's state for `seed` (seed 0 counts as 1).
pub open spec fn seed_state(seed: u64) -> u64 {
    if seed == 0 {
        1u64
    } else {
        seed
    }
}

/// A linear congruential generator (seed 0 counts as 1).
pub struct SimpleRng {
    pub state: u64,
}

impl SimpleRng {
    pub fn new(seed: u64) -> (r: Self)
        ensures
            r.state == if seed == 0 {
                1u64
            } else {
                seed
            },
    {
        SimpleRng { state: if seed == 0 { 1 } else { seed } }
    }

    /// Advances the generator and returns the top 31 bits of the new state;
    /// divided by 2^31 it is a number in `[0, 1)`.
    pub fn next_raw(&mut self) -> (r: u64)
        ensures
            final(self).state == lcg_next(old(self).state),
            r == final(self).state >> 33u64,
            r < 0x8000_0000,
    {
        self.state = self.state.wrapping_mul(6364136223846793005).wrapping_add(1442695040888963407);
        let s = self.state;
        assert(s >> 33u64 < 0x8000_0000) by (bit_vector);
        s >> 33
    }

    /// Advances the generator and returns a number below `n`: the top 31
    /// bits of the new state times `n`, divided by 2^31 (rounded down).
    pub fn next_index(&mut self, n: u64) -> (r: u64)
        requires
            0 < n,
        ensures
            final(self).state == lcg_next(old(self).state),
            r == ((final(self).state >> 33u64) * n) / 0x8000_0000,
            r < n,
    {
        let raw = self.next_raw();
        assert(raw * n < 0x8000_0000 * 0x1_0000_0000_0000_0000) by (nonlinear_arith)
            requires
                raw < 0x8000_0000,
                n < 0x1_0000_0000_0000_0000,
        ;
        let p: u128 = (raw as u128) * (n as u128);
        assert(p / 0x8000_0000 < n) by (nonlinear_arith)
            requires
                p == raw * n,
                raw < 0x8000_0000,
                n > 0,
        ;
        let q: u128 = p / 0x8000_0000u128;
        q as u64
    }
}

impl HalfEdgeMesh {
    /// A copy of the mesh.
    pub fn copy(&self) -> (r: HalfEdgeMesh)
        ensures
            r.vertices@ == self.vertices@,
            r.half_edges@ == self.half_edges@,
            r.faces@ == self.faces@,
    {
        let mut vertices = Vec::new();
        let mut i: usize = 0;
        while i < self.vertices.len()
            invariant
                i <= self.vertices@.len(),
                vertices@ == self.vertices@.take(i as int),
            decreases self.vertices@.len() - i,
        {
            vertices.push(self.vertices[i]);
            proof {
                assert(vertices@ =~= self.vertices@.take(i + 1));
            }
            i = i + 1;
        }
        let mut half_edges = Vec::new();
        let mut i: usize = 0;
        while i < self.half_edges.len()
            invariant
                i <= self.half_edges@.len(),
                half_edges@ == self.half_edges@.take(i as int),
            decreases self.half_edges@.len() - i,
        {
            half_edges.push(self.half_edges[i]);
            proof {
                assert(half_edges@ =~= self.half_edges@.take(i + 1));
            }
            i = i + 1;
        }
        let mut faces = Vec::new();
        let mut i: usize = 0;
        while i < self.faces.len()
            invariant
                i <= self.faces@.len(),
                faces@ == self.faces@.take(i as int),
            decreases self.faces@.len() - i,
        {
            faces.push(self.faces[i]);
            proof {
                assert(faces@ =~= self.faces@.take(i + 1));
            }
            i = i + 1;
        }
        proof {
            assert(vertices@ =~= self.vertices@);
            assert(half_edges@ =~= self.half_edges@);
            assert(faces@ =~= self.faces@);
        }
        HalfEdgeMesh { vertices, half_edges, faces }
    }
}

/// Well-formedness depends on the mesh's contents only.
pub proof fn lemma_same_views_wf(a: HalfEdgeMesh, b: HalfEdgeMesh)
    requires
        a.vertices@ == b.vertices@,
        a.half_edges@ == b.half_edges@,
        a.faces@ == b.faces@,
        a.wf(),
    ensures
        b.wf(),
{
    assert forall|h: int| 0 <= h < b.nh() implies #[trigger] b.link_ok(h) by {
        assert(a.link_ok(h));
    }
    assert forall|f: int| 0 <= f < b.nf() implies #[trigger] b.face_ok(f) by {
        assert(a.face_ok(f));
    }
    assert forall|v: int| 0 <= v < b.nv() implies #[trigger] b.vertex_ok(v) by {
        assert(a.vertex_ok(v));
    }
    assert(b.next_bounded());
    assert(b.outgoing_bounded());
    assert(b.bounded());
}

/// The half-edges below `n` whose twin is a half-edge with a larger index,
/// in increasing order: each interior edge once, by its smaller half-edge.
pub open spec fn smaller_halves(m: HalfEdgeMesh, n: nat) -> Seq<HalfEdgeId>
    decreases n,
{
    if n == 0 {
        Seq::empty()
    } else {
        let i = n - 1;
        let rest = smaller_halves(m, (n - 1) as nat);
        let t = m.half_edges@[i].twin.0;
        if t != none_id() && t < m.nh() && i < t {
            rest.push(HalfEdgeId(i as usize))
        } else {
            rest
        }
    }
}

/// The edges tried by one pass of `randomize_mesh_by_edge_flips`: each
/// half-edge `i` whose twin is in range and larger, unless an earlier
/// half-edge's twin was `i` (so each interior edge is taken once, by its
/// smaller half-edge). On a well-formed mesh these are `smaller_halves`.
fn interior_edges(mesh: &HalfEdgeMesh) -> (edges: Vec<HalfEdgeId>)
    ensures
        forall|k: int| 0 <= k < edges@.len() ==> (#[trigger] edges@[k]).0 < mesh.nh(),
        edges@.len() <= mesh.nh(),
        mesh.wf() ==> edges@ == smaller_halves(*mesh, mesh.nh() as nat),
{
    let nh = mesh.half_edges.len();
    let mut visited: Vec<bool> = Vec::new();
    let mut i: usize = 0;
    while i < nh
        invariant
            i <= nh,
            visited@.len() == i,
            forall|k: int| 0 <= k < i ==> !(#[trigger] visited@[k]),
        decreases nh - i,
    {
        visited.push(false);
        i = i + 1;
    }
    let mut edges: Vec<HalfEdgeId> = Vec::new();
    let mut i: usize = 0;
    while i < nh
        invariant
            nh == mesh.nh(),
            i <= nh,
            visited@.len() == nh,
            forall|k: int| 0 <= k < edges@.len() ==> (#[trigger] edges@[k]).0 < nh,
            edges@.len() <= i,
            mesh.wf() ==> edges@ == smaller_halves(*mesh, i as nat),
            forall|k: int| i <= k < nh && #[trigger] visited@[k] ==> exists|j: int| 0 <= j < i && mesh.half_edges@[j].twin.0 == k,
        decreases nh - i,
    {
        proof {
            if mesh.wf() && visited@[i as int] {
                let j = choose|j: int| 0 <= j < i && mesh.half_edges@[j].twin.0 == i;
                assert(mesh.link_ok(j));
            }
        }
        let ghost v0 = visited@;
        if !visited[i] {
            visited.set(i, true);
            let t = mesh.half_edges[i].twin.0;
            if t != usize::MAX && t < nh {
                visited.set(t, true);
                if i < t {
                    edges.push(HalfEdgeId(i));
                }
            }
        }
        proof {
            assert forall|k: int| i + 1 <= k < nh && #[trigger] visited@[k] implies exists|j: int| 0 <= j < i + 1 && mesh.half_edges@[j].twin.0 == k by {
                if v0[k] {
                    let j = choose|j: int| 0 <= j < i && mesh.half_edges@[j].twin.0 == k;
                    assert(0 <= j < i + 1 && mesh.half_edges@[j].twin.0 == k);
                } else {
                    assert(mesh.half_edges@[i as int].twin.0 == k);
                }
            }
        }
        i = i + 1;
    }
    edges
}

/// The Fisher-Yates shuffle of `s` from position `i` down: for each
/// `k = i - 1, ..., 1` the generator advances and position `k` is swapped
/// with the position below `k + 1` that `next_index` draws. Gives the
/// shuffled sequence and the generator's state afterwards.
pub open spec fn shuffle_from(s: Seq<HalfEdgeId>, state: u64, i: nat) -> (Seq<HalfEdgeId>, u64)
    decreases i,
{
    if i <= 1 {
        (s, state)
    } else {
        let k = (i - 1) as int;
        let st = lcg_next(state);
        let j = ((st >> 33u64) * i) / 0x8000_0000;
        shuffle_from(s.update(k, s[j]).update(j, s[k]), st, (i - 1) as nat)
    }
}

/// One step of a pass: edge `h` is flipped when the flip is possible and
/// `convex` accepts its corners, and otherwise left, `convex` having
/// refused where the flip was possible.
pub open spec fn flip_step<F: Fn(glam::Vec2, glam::Vec2, glam::Vec2, glam::Vec2) -> bool>(
    m0: HalfEdgeMesh,
    h: HalfEdgeId,
    m1: HalfEdgeMesh,
    convex: &F,
) -> bool {
    ||| m0.flip_possible(h.0 as int) && convex.ensures(m0.flip_uvs(h.0 as int), true) && crate::mesh::flip::flip_relation(
        m0,
        m1,
        h.0 as int,
    )
    ||| m1 == m0 && (m0.flip_possible(h.0 as int) ==> convex.ensures(m0.flip_uvs(h.0 as int), false))
}

/// `ms` lists the meshes met while trying the edges `order` in turn: each
/// is what `flip_step` makes of the one before.
pub open spec fn flip_trace<F: Fn(glam::Vec2, glam::Vec2, glam::Vec2, glam::Vec2) -> bool>(
    order: Seq<HalfEdgeId>,
    ms: Seq<HalfEdgeMesh>,
    convex: &F,
) -> bool {
    &&& ms.len() == order.len() + 1
    &&& forall|k: int| 0 <= k < order.len() ==> #[trigger] flip_step(ms[k], order[k], ms[k + 1], convex)
}

/// `m1` is what trying the edges `order` in turn (see `flip_step`) makes
/// of `m0`.
pub open spec fn flips_along<F: Fn(glam::Vec2, glam::Vec2, glam::Vec2, glam::Vec2) -> bool>(
    m0: HalfEdgeMesh,
    order: Seq<HalfEdgeId>,
    m1: HalfEdgeMesh,
    convex: &F,
) -> bool {
    exists|ms: Seq<HalfEdgeMesh>| #[trigger] flip_trace(order, ms, convex) && ms[0] == m0 && ms.last() == m1
}

/// `m1` is what `passes` passes make of `m0` with the generator in `state`:
/// each pass shuffles the mesh's `smaller_halves` (see `shuffle_from`) and
/// tries them in that order (see `flips_along`).
pub open spec fn randomized<F: Fn(glam::Vec2, glam::Vec2, glam::Vec2, glam::Vec2) -> bool>(
    m0: HalfEdgeMesh,
    passes: nat,
    state: u64,
    m1: HalfEdgeMesh,
    convex: &F,
) -> bool
    decreases passes,
{
    if passes == 0 {
        m1 == m0
    } else {
        let edges = smaller_halves(m0, m0.nh() as nat);
        let (order, st) = shuffle_from(edges, state, edges.len());
        exists|mid: HalfEdgeMesh|
            #[trigger] flips_along(m0, order, mid, convex) && randomized(mid, (passes - 1) as nat, st, m1, convex)
    }
}

proof fn lemma_flips_extend<F: Fn(glam::Vec2, glam::Vec2, glam::Vec2, glam::Vec2) -> bool>(
    m0: HalfEdgeMesh,
    order: Seq<HalfEdgeId>,
    k: int,
    mid: HalfEdgeMesh,
    m1: HalfEdgeMesh,
    convex: &F,
)
    requires
        0 <= k < order.len(),
        flips_along(m0, order.take(k), mid, convex),
        flip_step(mid, order[k], m1, convex),
    ensures
        flips_along(m0, order.take(k + 1), m1, convex),
{
    let ms = choose|ms: Seq<HalfEdgeMesh>| #[trigger] flip_trace(order.take(k), ms, convex) && ms[0] == m0 && ms.last() == mid;
    let ms2 = ms.push(m1);
    let t = order.take(k + 1);
    assert forall|q: int| 0 <= q < t.len() implies #[trigger] flip_step(ms2[q], t[q], ms2[q + 1], convex) by {
        if q < k {
            assert(flip_step(ms[q], order.take(k)[q], ms[q + 1], convex));
        }
    }
    assert(flip_trace(t, ms2, convex));
}

proof fn lemma_randomized_step<F: Fn(glam::Vec2, glam::Vec2, glam::Vec2, glam::Vec2) -> bool>(
    m0: HalfEdgeMesh,
    passes: nat,
    state: u64,
    order: Seq<HalfEdgeId>,
    st: u64,
    mid: HalfEdgeMesh,
    mf: HalfEdgeMesh,
    convex: &F,
)
    requires
        passes > 0,
        shuffle_from(smaller_halves(m0, m0.nh() as nat), state, smaller_halves(m0, m0.nh() as nat).len()) == (order, st),
        flips_along(m0, order, mid, convex),
        randomized(mid, (passes - 1) as nat, st, mf, convex),
    ensures
        randomized(m0, passes, state, mf, convex),
{
    let edges = smaller_halves(m0, m0.nh() as nat);
    assert(shuffle_from(edges, state, edges.len()).0 == order);
    assert(shuffle_from(edges, state, edges.len()).1 == st);
    assert(flips_along(m0, order, mid, convex) && randomized(mid, (passes - 1) as nat, st, mf, convex));
}

/// Randomises the connectivity of a triangle mesh: each of `num_passes`
/// passes shuffles its interior edges (Fisher-Yates, driven by a generator
/// seeded with `seed`) and tries to flip each one (see `flip_edge`, with
/// `convex` judging the corners' parameter coordinates). Vertices keep their
/// positions and coordinates; only the triangulation changes. The result is
/// exactly what `randomized` describes for a mesh with `mesh`'s contents.
pub fn randomize_mesh_by_edge_flips<F: Fn(glam::Vec2, glam::Vec2, glam::Vec2, glam::Vec2) -> bool>(
    mesh: &HalfEdgeMesh,
    num_passes: usize,
    seed: u64,
    convex: &F,
) -> (r: HalfEdgeMesh)
    requires
        mesh.wf(),
        forall|x: (glam::Vec2, glam::Vec2, glam::Vec2, glam::Vec2)| #[trigger] convex.requires(x),
    ensures
        r.wf(),
        keeps(*mesh, r),
        r.nv() == mesh.nv(),
        r.nh() == mesh.nh(),
        r.nf() == mesh.nf(),
        exists|m0: HalfEdgeMesh|
            m0.vertices@ == mesh.vertices@ && m0.half_edges@ == mesh.half_edges@ && m0.faces@ == mesh.faces@
                && #[trigger] randomized(m0, num_passes as nat, seed_state(seed), r, convex),
{
    let mut m = mesh.copy();
    let ghost m_start = m;
    let mut rng = SimpleRng::new(seed);
    proof {
        crate::mesh::cut::lemma_keeps_refl(m);
        lemma_same_views_wf(*mesh, m);
    }
    let mut pass: usize = 0;
    while pass < num_passes
        invariant
            m.wf(),
            keeps(*mesh, m),
            m.nv() == mesh.nv(),
            m.nh() == mesh.nh(),
            m.nf() == mesh.nf(),
                forall|x: (glam::Vec2, glam::Vec2, glam::Vec2, glam::Vec2)| #[trigger] convex.requires(x),
            pass <= num_passes,
            m_start.vertices@ == mesh.vertices@ && m_start.half_edges@ == mesh.half_edges@ && m_start.faces@ == mesh.faces@,
            forall|mf: HalfEdgeMesh|
                #[trigger] randomized(m, (num_passes - pass) as nat, rng.state, mf, convex) ==> randomized(
                    m_start,
                    num_passes as nat,
                    seed_state(seed),
                    mf,
                    convex,
                ),
        decreases num_passes - pass,
    {
        let ghost pass_start = m;
        let ghost state_start = rng.state;
        let mut edges = interior_edges(&m);
        let ghost e0 = edges@;
        let n = edges.len();
        let mut i = n;
        while i > 1
            invariant
                i <= n,
                n == edges@.len(),
                forall|k: int| 0 <= k < edges@.len() ==> (#[trigger] edges@[k]).0 < m.nh(),
                shuffle_from(edges@, rng.state, i as nat) == shuffle_from(e0, state_start, n as nat),
            decreases i,
        {
            i = i - 1;
            let ghost st0 = rng.state;
            let j = rng.next_index((i + 1) as u64) as usize;
            let a = edges[i];
            let b = edges[j];
            let ghost before = edges@;
            edges.set(i, b);
            edges.set(j, a);
            proof {
                assert(edges@ == before.update(i as int, before[j as int]).update(j as int, before[i as int]));
            }
        }
        let ghost order = edges@;
        let ghost state_after = rng.state;
        proof {
            assert(shuffle_from(order, state_after, i as nat) == (order, state_after));
            assert(flip_trace(order.take(0), seq![m], convex));
        }
        let mut k: usize = 0;
        while k < n
            invariant
                m.wf(),
                keeps(*mesh, m),
                m.nv() == mesh.nv(),
                m.nh() == mesh.nh(),
                m.nf() == mesh.nf(),
                n == edges@.len(),
                forall|q: int| 0 <= q < edges@.len() ==> (#[trigger] edges@[q]).0 < m.nh(),
                forall|x: (glam::Vec2, glam::Vec2, glam::Vec2, glam::Vec2)| #[trigger] convex.requires(x),
                k <= n,
                edges@ == order,
                flips_along(pass_start, order.take(k as int), m, convex),
            decreases n - k,
        {
            let ghost before = m;
            let flipped = m.flip_edge(edges[k], convex);
            proof {
                if flipped {
                    lemma_flip_keeps(before, m, edges@[k as int].0 as int);
                    crate::mesh::cut::lemma_keeps_trans(*mesh, before, m);
                }
                assert(flip_step(before, order[k as int], m, convex));
                lemma_flips_extend(pass_start, order, k as int, before, m, convex);
            }
            k = k + 1;
        }
        proof {
            assert(order.take(n as int) =~= order);
            assert(e0 == smaller_halves(pass_start, pass_start.nh() as nat));
            assert((order, state_after) == shuffle_from(e0, state_start, e0.len()));
            assert forall|mf: HalfEdgeMesh|
                #[trigger] randomized(m, (num_passes - (pass + 1)) as nat, rng.state, mf, convex) implies randomized(
                    pass_start,
                    (num_passes - pass) as nat,
                    state_start,
                    mf,
                    convex,
                ) by {
                lemma_randomized_step(
                    pass_start,
                    (num_passes - pass) as nat,
                    state_start,
                    order,
                    state_after,
                    m,
                    mf,
                    convex,
                );
            }
        }
        pass = pass + 1;
    }
    proof {
        assert(randomized(m, (num_passes - pass) as nat, rng.state, m, convex));
        assert(randomized(m_start, num_passes as nat, seed_state(seed), m, convex));
    }
    m
}

/// A flip keeps positions, coordinates, faces' validity and patches and
/// the cut marks.
proof fn lemma_flip_keeps(m0: HalfEdgeMesh, m1: HalfEdgeMesh, h: int)
    requires
        m0.wf(),
        0 <= h < m0.nh(),
        m0.flip_possible(h),
        crate::mesh::flip::flip_relation(m0, m1, h),
    ensures
        keeps(m0, m1),
{
    assert forall|v: int| 0 <= v < m0.nv() implies (#[trigger] m1.vertices@[v]).position == m0.vertices@[v].position
        && m1.vertices@[v].uv == m0.vertices@[v].uv by {
        let _ = m1.vertices@[v];
    }
    assert forall|f: int| 0 <= f < m0.nf() implies (#[trigger] m1.faces@[f]).valid == m0.faces@[f].valid
        && m1.faces@[f].patch_index == m0.faces@[f].patch_index by {
        let _ = m1.faces@[f];
    }
    let e = m0.half_edges@[h];
    let te = m0.half_edges@[e.twin.0 as int];
    assert forall|x: int| 0 <= x < m0.nh() implies (#[trigger] m1.half_edges@[x]).cut == m0.half_edges@[x].cut by {
        let _ = m1.half_edges@[x];
        let _ = m1.half_edges@[h];
        let _ = m1.half_edges@[e.twin.0 as int];
        let _ = m1.half_edges@[e.next.0 as int];
        let _ = m1.half_edges@[e.prev.0 as int];
        let _ = m1.half_edges@[te.next.0 as int];
        let _ = m1.half_edges@[te.prev.0 as int];
    }
}

} // verus!
