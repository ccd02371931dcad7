//! The quads of the open (unfolded) torus grid. Vertex `(i, j)` of the
//! `(res_u + 1) x (res_v + 1)` grid of parameter points has index
//! `i * (res_v + 1) + j`; quad `(i, j)` joins `(i, j)`, `(i + 1, j)`,
//! `(i + 1, j + 1)` and `(i, j + 1)`, and no quad crosses the seams.
use vstd::prelude::*;
use crate::mesh::half_edge::HalfEdgeMesh;
use crate::mesh::soup::{edge_key, edges_at_most_twice, quad_built, quad_corner, quad_keys};

verus! {

/// Quad `(i, j)` over columns of `nv` vertices.
pub open spec fn grid_quad(nv: int, i: int, j: int) -> (usize, usize, usize, usize) {
    ((i * nv + j) as usize, ((i + 1) * nv + j) as usize, ((i + 1) * nv + j + 1) as usize, (i * nv + j + 1) as usize)
}

/// The quads of the `res_u x res_v` grid, column by column: quad number
/// `q` is quad `(q / res_v, q % res_v)`.
pub open spec fn grid_quads(res_u: int, res_v: int) -> Seq<(usize, usize, usize, usize)> {
    Seq::new((res_u * res_v) as nat, |q: int| grid_quad(res_v + 1, q / res_v, q % res_v))
}

proof fn lemma_quad_position(ru: int, rv: int, q: int)
    requires
        0 < rv,
        0 <= ru,
        0 <= q < ru * rv,
    ensures
        0 <= q / rv < ru,
        0 <= q % rv < rv,
        q == (q / rv) * rv + q % rv,
        (q / rv) * (rv + 1) + q % rv + (rv + 1) + 1 <= (ru + 1) * (rv + 1) - 1,
{
    vstd::arithmetic::div_mod::lemma_fundamental_div_mod(q, rv);
    vstd::arithmetic::div_mod::lemma_mod_bound(q, rv);
    vstd::arithmetic::div_mod::lemma_div_pos_is_pos(q, rv);
    let i = q / rv;
    let j = q % rv;
    assert(i < ru) by (nonlinear_arith)
        requires
            q == rv * i + j,
            0 <= j,
            q < ru * rv,
            0 < rv,
    ;
    assert(q == i * rv + j) by (nonlinear_arith)
        requires
            q == rv * i + j,
    ;
    assert(i * (rv + 1) + j + (rv + 1) + 1 <= (ru + 1) * (rv + 1) - 1) by (nonlinear_arith)
        requires
            0 <= i < ru,
            0 <= j < rv,
    ;
}

/// A column-major index `i * nv + j` with `j < nv` determines `i` and `j`.
proof fn lemma_base_unique(nv: int, i1: int, j1: int, i2: int, j2: int)
    requires
        0 <= j1 < nv,
        0 <= j2 < nv,
        0 <= i1,
        0 <= i2,
        i1 * nv + j1 == i2 * nv + j2,
    ensures
        i1 == i2,
        j1 == j2,
{
    if i1 < i2 {
        assert(i1 * nv + nv <= i2 * nv) by (nonlinear_arith)
            requires
                i1 < i2,
                0 <= nv,
        ;
    }
    if i2 < i1 {
        assert(i2 * nv + nv <= i1 * nv) by (nonlinear_arith)
            requires
                i2 < i1,
                0 <= nv,
        ;
    }
}

/// The undirected edge of half-edge `h` of the grid: slot `h % 4` of quad
/// `h / 4` with first corner `a`.
proof fn lemma_grid_key(ru: int, rv: int, h: int)
    requires
        0 < rv,
        0 <= ru,
        (ru + 1) * (rv + 1) <= usize::MAX,
        0 <= h < 4 * (ru * rv),
    ensures
        ({
            let q = h / 4;
            let r = h % 4;
            let a = (q / rv) * (rv + 1) + q % rv;
            let nv = rv + 1;
            let k = quad_keys(grid_quads(ru, rv))[h];
            &&& 0 <= q < ru * rv
            &&& h == 4 * q + r
            &&& 0 <= a
            &&& r == 0 ==> k == ((a as usize), ((a + nv) as usize))
            &&& r == 1 ==> k == (((a + nv) as usize), ((a + nv + 1) as usize))
            &&& r == 2 ==> k == (((a + 1) as usize), ((a + nv + 1) as usize))
            &&& r == 3 ==> k == ((a as usize), ((a + 1) as usize))
        }),
{
    let q = h / 4;
    let r = h % 4;
    vstd::arithmetic::div_mod::lemma_fundamental_div_mod(h, 4);
    assert(0 <= q < ru * rv);
    lemma_quad_position(ru, rv, q);
    let quads = grid_quads(ru, rv);
    let nv = rv + 1;
    let i = q / rv;
    let j = q % rv;
    let a = i * nv + j;
    assert((i + 1) * nv == i * nv + nv) by (nonlinear_arith);
    assert(quads.len() == ru * rv);
    assert(quads[q] == grid_quad(nv, i, j));
    let t = quads[q];
    assert(t == ((a as usize), ((a + nv) as usize), ((a + nv + 1) as usize), ((a + 1) as usize)));
    assert(quad_keys(quads).len() == 4 * quads.len());
    assert(quad_keys(quads)[h] == edge_key(quad_corner(quads[h / 4], h % 4), quad_corner(quads[h / 4], (h % 4 + 1) % 4)));
    assert(0 <= a);
    assert(a + nv + 1 <= usize::MAX);
}

/// The grid's quads never share an undirected edge three times over, so
/// the half-edge mesh built from them is well-formed (see `from_quads`).
pub proof fn lemma_grid_edges_at_most_twice(ru: int, rv: int)
    requires
        0 <= ru,
        0 <= rv,
        (ru + 1) * (rv + 1) <= usize::MAX,
    ensures
        edges_at_most_twice(quad_keys(grid_quads(ru, rv))),
{
    let keys = quad_keys(grid_quads(ru, rv));
    if rv == 0 {
        assert(grid_quads(ru, rv).len() == 0) by (nonlinear_arith)
            requires rv == 0;
        return;
    }
    let nv = rv + 1;
    assert forall|g1: int, g2: int, g3: int|
        0 <= g1 < g2 < g3 < keys.len() && #[trigger] keys[g1] == #[trigger] keys[g2] implies keys[g2] != #[trigger] keys[g3] by {
        if keys[g2] == keys[g3] {
            assert(keys.len() == 4 * (ru * rv)) by (nonlinear_arith)
                requires keys.len() == 4 * grid_quads(ru, rv).len(), grid_quads(ru, rv).len() == ru * rv;
            lemma_grid_key(ru, rv, g1);
            lemma_grid_key(ru, rv, g2);
            lemma_grid_key(ru, rv, g3);
            lemma_same_key_same_slot_class(ru, rv, g1, g2);
            lemma_same_key_same_slot_class(ru, rv, g2, g3);
            lemma_same_key_same_slot_class(ru, rv, g1, g3);
        }
    }
}

/// Two grid half-edges with the same undirected edge in the same slot are
/// the same half-edge; in different slots, the slots differ by two.
proof fn lemma_same_key_same_slot_class(ru: int, rv: int, h1: int, h2: int)
    requires
        0 < rv,
        0 <= ru,
        (ru + 1) * (rv + 1) <= usize::MAX,
        0 <= h1 < 4 * (ru * rv),
        0 <= h2 < 4 * (ru * rv),
        h1 != h2,
        quad_keys(grid_quads(ru, rv))[h1] == quad_keys(grid_quads(ru, rv))[h2],
    ensures
        h1 % 4 != h2 % 4,
        (h1 % 4 == 0 || h1 % 4 == 2) <==> (h2 % 4 == 0 || h2 % 4 == 2),
{
    let nv = rv + 1;
    lemma_grid_key(ru, rv, h1);
    lemma_grid_key(ru, rv, h2);
    let q1 = h1 / 4;
    let q2 = h2 / 4;
    lemma_quad_position(ru, rv, q1);
    lemma_quad_position(ru, rv, q2);
    let (i1, j1) = (q1 / rv, q1 % rv);
    let (i2, j2) = (q2 / rv, q2 % rv);
    let a1 = i1 * nv + j1;
    let a2 = i2 * nv + j2;
    let r1 = h1 % 4;
    let r2 = h2 % 4;
    if r1 == r2 {
        // Same slot: the same corner `a`, hence the same quad.
        assert(a1 == a2);
        lemma_base_unique(nv, i1, j1, i2, j2);
        assert(q1 == q2);
    }
    // Slots 0 and 2 span `nv` between the ends, slots 1 and 3 span 1.
}

/// The quads of the open grid (see `grid_quads`), whose half-edge mesh is
/// well-formed.
pub fn unfolded_grid_quads(res_u: usize, res_v: usize) -> (r: Vec<(usize, usize, usize, usize)>)
    requires
        (res_u + 1) * (res_v + 1) <= usize::MAX,
    ensures
        r@ == grid_quads(res_u as int, res_v as int),
        forall|q: int| 0 <= q < r@.len() ==> {
            let t = #[trigger] r@[q];
            &&& t.0 < (res_u + 1) * (res_v + 1)
            &&& t.1 < (res_u + 1) * (res_v + 1)
            &&& t.2 < (res_u + 1) * (res_v + 1)
            &&& t.3 < (res_u + 1) * (res_v + 1)
        },
        edges_at_most_twice(quad_keys(r@)),
{
    assert(res_v + 1 <= (res_u + 1) * (res_v + 1)) by (nonlinear_arith);
    let nv = res_v + 1;
    let mut r: Vec<(usize, usize, usize, usize)> = Vec::new();
    let mut i: usize = 0;
    while i < res_u
        invariant
            (res_u + 1) * (res_v + 1) <= usize::MAX,
            nv == res_v + 1,
            i <= res_u,
            r@ == grid_quads(res_u as int, res_v as int).take(i * res_v),
        decreases res_u - i,
    {
        let mut j: usize = 0;
        while j < res_v
            invariant
                (res_u + 1) * (res_v + 1) <= usize::MAX,
                nv == res_v + 1,
                i < res_u,
                j <= res_v,
                r@ == grid_quads(res_u as int, res_v as int).take(i * res_v + j),
            decreases res_v - j,
        {
            assert(i * nv + j + nv + 1 <= (res_u + 1) * (res_v + 1) - 1) by (nonlinear_arith)
                requires
                    i < res_u,
                    j < res_v,
                    nv == res_v + 1,
            ;
            let a = i * nv + j;
            r.push((a, a + nv, a + nv + 1, a + 1));
            proof {
                assert((i + 1) * nv == i * nv + nv) by (nonlinear_arith);
                let q = i * res_v + j;
                assert(q < res_u * res_v) by (nonlinear_arith)
                    requires
                        i < res_u,
                        j < res_v,
                        q == i * res_v + j,
                ;
                vstd::arithmetic::div_mod::lemma_fundamental_div_mod_converse(q as int, res_v as int, i as int, j as int);
                assert(grid_quads(res_u as int, res_v as int)[q as int] == grid_quad(nv as int, i as int, j as int));
                assert(r@ =~= grid_quads(res_u as int, res_v as int).take(q + 1));
            }
            j = j + 1;
        }
        proof {
            assert(i * res_v + res_v == (i + 1) * res_v) by (nonlinear_arith);
        }
        i = i + 1;
    }
    proof {
        assert(grid_quads(res_u as int, res_v as int).len() == res_u * res_v);
        assert(r@ =~= grid_quads(res_u as int, res_v as int));
        assert forall|q: int| 0 <= q < r@.len() implies {
            let t = #[trigger] r@[q];
            &&& t.0 < (res_u + 1) * (res_v + 1)
            &&& t.1 < (res_u + 1) * (res_v + 1)
            &&& t.2 < (res_u + 1) * (res_v + 1)
            &&& t.3 < (res_u + 1) * (res_v + 1)
        } by {
            lemma_quad_position(res_u as int, res_v as int, q);
            let ii = q / (res_v as int);
            let jj = q % (res_v as int);
            assert((ii + 1) * (nv as int) == ii * (nv as int) + nv) by (nonlinear_arith);
        }
        lemma_grid_edges_at_most_twice(res_u as int, res_v as int);
    }
    r
}

/// The half-edge mesh of the open `res_u x res_v` grid over the given
/// points (vertex `i * (res_v + 1) + j` at `positions[..]`, see
/// `unfolded_grid_quads`); it is well-formed.
pub fn unfolded_grid_mesh(positions: &[glam::Vec3], uvs: &[glam::Vec2], res_u: usize, res_v: usize) -> (m: HalfEdgeMesh)
    requires
        positions.len() == (res_u + 1) * (res_v + 1),
        4 * (res_u * res_v) + 4 < usize::MAX,
    ensures
        m.wf(),
        quad_built(m, positions@, uvs@, grid_quads(res_u as int, res_v as int), res_u * res_v),
{
    let quads = unfolded_grid_quads(res_u, res_v);
    proof {
        assert(quads@.len() == res_u * res_v);
    }
    HalfEdgeMesh::from_quads(positions, uvs, quads.as_slice())
}

} // verus!
