//! Export formats and the grouping of faces into per-patch sub-meshes.
use vstd::prelude::*;
use crate::mesh::half_edge::{FaceId, HEFace, HalfEdgeId, HalfEdgeMesh};

verus! {

/// File formats the mesh can be written in.
#[derive(Debug, Clone, Copy, PartialEq, Eq, Structural)]
pub enum ExportFormat {
    Obj,
    Stl,
    Ply,
}

impl ExportFormat {
    /// Every format, in menu order.
    pub fn all() -> (r: &'static [ExportFormat])
        ensures
            r@ == seq![ExportFormat::Obj, ExportFormat::Stl, ExportFormat::Ply],
    {
        &[ExportFormat::Obj, ExportFormat::Stl, ExportFormat::Ply]
    }

    /// Menu label of the format.
    pub fn label(self) -> (r: &'static str)
        ensures
            r@ == match self {
                ExportFormat::Obj => "OBJ (.obj)"@,
                ExportFormat::Stl => "STL (.stl)"@,
                ExportFormat::Ply => "PLY (.ply)"@,
            },
    {
        match self {
            ExportFormat::Obj => "OBJ (.obj)",
            ExportFormat::Stl => "STL (.stl)",
            ExportFormat::Ply => "PLY (.ply)",
        }
    }

    /// File extension of the format, without the dot.
    pub fn extension(self) -> (r: &'static str)
        ensures
            r@ == match self {
                ExportFormat::Obj => "obj"@,
                ExportFormat::Stl => "stl"@,
                ExportFormat::Ply => "ply"@,
            },
    {
        match self {
            ExportFormat::Obj => "obj",
            ExportFormat::Stl => "stl",
            ExportFormat::Ply => "ply",
        }
    }
}

/// Patch a face is exported under (faces without one go to `(0, 0)`).
pub open spec fn patch_key(f: HEFace) -> (usize, usize) {
    match f.patch_index {
        Some(p) => p,
        None => (0, 0),
    }
}

/// The fan of triangles exported for face `f`: for a valid face with at
/// least three corners, its first corner with each pair of consecutive
/// later corners; nothing otherwise.
pub open spec fn face_fan(m: HalfEdgeMesh, f: int) -> Seq<(usize, usize, usize)> {
    let c = m.face_walk(f);
    if m.faces@[f].valid && c.len() >= 3 {
        Seq::new(
            (c.len() - 2) as nat,
            |k: int|
                (
                    m.half_edges@[c[0].0 as int].origin.0,
                    m.half_edges@[c[k + 1].0 as int].origin.0,
                    m.half_edges@[c[k + 2].0 as int].origin.0,
                ),
        )
    } else {
        Seq::empty()
    }
}

/// The triangles of patch `key` among the first `n` faces, in face order.
pub open spec fn key_tris(m: HalfEdgeMesh, key: (usize, usize), n: int) -> Seq<(usize, usize, usize)>
    decreases n,
{
    if n <= 0 {
        Seq::empty()
    } else {
        key_tris(m, key, n - 1) + if patch_key(m.faces@[n - 1]) == key {
            face_fan(m, n - 1)
        } else {
            Seq::empty()
        }
    }
}

/// Lexicographic order on patch keys.
pub open spec fn key_lt(a: (usize, usize), b: (usize, usize)) -> bool {
    a.0 < b.0 || (a.0 == b.0 && a.1 < b.1)
}

/// `r` lists, in increasing key order, every patch that has triangles among
/// the first `n` faces, with those triangles.
pub open spec fn groups_ok(m: HalfEdgeMesh, r: Seq<((usize, usize), Vec<(usize, usize, usize)>)>, n: int) -> bool {
    &&& forall|i: int, j: int| 0 <= i < j < r.len() ==> key_lt(#[trigger] r[i].0, #[trigger] r[j].0)
    &&& forall|i: int| 0 <= i < r.len() ==> (#[trigger] r[i]).1@ == key_tris(m, r[i].0, n) && r[i].1@.len() > 0
    &&& forall|key: (usize, usize)| #[trigger] key_tris(m, key, n).len() > 0 ==> exists|i: int| 0 <= i < r.len() && r[i].0 == key
}

/// The fan of triangles of a face (see `face_fan`).
fn fan_triangles(mesh: &HalfEdgeMesh, f: usize) -> (t: Vec<(usize, usize, usize)>)
    requires
        mesh.bounded(),
        f < mesh.nf(),
    ensures
        t@ == face_fan(*mesh, f as int),
        forall|k: int| 0 <= k < t@.len() ==> (#[trigger] t@[k]).0 < mesh.nv() && t@[k].1 < mesh.nv() && t@[k].2 < mesh.nv(),
{
    let mut t: Vec<(usize, usize, usize)> = Vec::new();
    if !mesh.faces[f].valid {
        return t;
    }
    let hes = mesh.face_half_edges(FaceId(f));
    if hes.len() < 3 {
        return t;
    }
    let v0 = mesh.half_edges[hes[0].0].origin.0;
    proof {
        let _ = mesh.half_edges@[hes@[0].0 as int];
    }
    let mut k: usize = 1;
    while k < hes.len() - 1
        invariant
            mesh.bounded(),
            hes@ == mesh.face_walk(f as int),
            hes@.len() >= 3,
            f < mesh.nf(),
            mesh.faces@[f as int].valid,
            forall|j: int| 0 <= j < hes@.len() ==> (#[trigger] hes@[j]).0 < mesh.nh(),
            1 <= k <= hes@.len() - 1,
            v0 == mesh.half_edges@[hes@[0].0 as int].origin.0,
            v0 < mesh.nv(),
            t@ == face_fan(*mesh, f as int).take(k - 1),
            forall|q: int| 0 <= q < t@.len() ==> (#[trigger] t@[q]).0 < mesh.nv() && t@[q].1 < mesh.nv() && t@[q].2 < mesh.nv(),
        decreases hes@.len() - k,
    {
        let v1 = mesh.half_edges[hes[k].0].origin.0;
        let v2 = mesh.half_edges[hes[k + 1].0].origin.0;
        proof {
            let _ = mesh.half_edges@[hes@[k as int].0 as int];
            let _ = mesh.half_edges@[hes@[k + 1].0 as int];
        }
        t.push((v0, v1, v2));
        proof {
            assert(t@ =~= face_fan(*mesh, f as int).take(k as int));
        }
        k = k + 1;
    }
    proof {
        assert(face_fan(*mesh, f as int).take(k - 1) =~= face_fan(*mesh, f as int));
    }
    t
}

/// Groups the fan triangles of the valid faces by patch (see `groups_ok`).
pub fn collect_patch_groups(mesh: &HalfEdgeMesh) -> (r: Vec<((usize, usize), Vec<(usize, usize, usize)>)>)
    requires
        mesh.bounded(),
    ensures
        groups_ok(*mesh, r@, mesh.nf()),
        forall|i: int, k: int| 0 <= i < r@.len() && 0 <= k < r@[i].1@.len() ==> (#[trigger] r@[i].1@[k]).0 < mesh.nv()
            && r@[i].1@[k].1 < mesh.nv() && r@[i].1@[k].2 < mesh.nv(),
{
    let mut r: Vec<((usize, usize), Vec<(usize, usize, usize)>)> = Vec::new();
    let nf = mesh.faces.len();
    let mut fi: usize = 0;
    while fi < nf
        invariant
            mesh.bounded(),
            nf == mesh.nf(),
            fi <= nf,
            groups_ok(*mesh, r@, fi as int),
            forall|i: int, k: int| 0 <= i < r@.len() && 0 <= k < r@[i].1@.len() ==> (#[trigger] r@[i].1@[k]).0 < mesh.nv()
                && r@[i].1@[k].1 < mesh.nv() && r@[i].1@[k].2 < mesh.nv(),
        decreases nf - fi,
    {
        let tris = fan_triangles(mesh, fi);
        let key = match mesh.faces[fi].patch_index {
            Some(p) => p,
            None => (0, 0),
        };
        proof {
            assert forall|kk: (usize, usize)| #[trigger] key_tris(*mesh, kk, fi + 1) == key_tris(*mesh, kk, fi as int) + if kk == key {
                tris@
            } else {
                Seq::empty()
            } by {}
        }
        if tris.len() > 0 {
            let mut i: usize = 0;
            while i < r.len() && key_lt_exec(r[i].0, key)
                invariant
                    i <= r@.len(),
                    forall|j: int| 0 <= j < i ==> key_lt(#[trigger] r@[j].0, key),
                decreases r@.len() - i,
            {
                i = i + 1;
            }
            if i < r.len() && r[i].0.0 == key.0 && r[i].0.1 == key.1 {
                let ghost r0 = r@;
                let mut k: usize = 0;
                while k < tris.len()
                    invariant
                        i < r@.len(),
                        r@.len() == r0.len(),
                        k <= tris@.len(),
                        r@[i as int].0 == key,
                        r@[i as int].1@ == r0[i as int].1@ + tris@.take(k as int),
                        forall|j: int| 0 <= j < r@.len() && j != i ==> #[trigger] r@[j] == r0[j],
                    decreases tris@.len() - k,
                {
                    r[i].1.push(tris[k]);
                    proof {
                        assert(tris@.take(k + 1) =~= tris@.take(k as int).push(tris@[k as int]));
                    }
                    k = k + 1;
                }
                proof {
                    assert(tris@.take(tris@.len() as int) =~= tris@);
                    lemma_groups_append(*mesh, r0, r@, fi as int, i as int, key, tris@);
                }
            } else {
                let ghost r0 = r@;
                r.insert(i, (key, tris));
                proof {
                    lemma_groups_insert(*mesh, r0, r@, fi as int, i as int, key, tris@);
                }
            }
        } else {
            proof {
                assert forall|kk: (usize, usize)| #[trigger] key_tris(*mesh, kk, fi + 1) == key_tris(*mesh, kk, fi as int) by {
                    assert(tris@ =~= Seq::<(usize, usize, usize)>::empty());
                }
            }
        }
        fi = fi + 1;
    }
    r
}

/// `a` comes before `b` in the order of patch keys.
fn key_lt_exec(a: (usize, usize), b: (usize, usize)) -> (r: bool)
    ensures
        r == key_lt(a, b),
{
    a.0 < b.0 || (a.0 == b.0 && a.1 < b.1)
}

proof fn lemma_groups_append(
    m: HalfEdgeMesh,
    r0: Seq<((usize, usize), Vec<(usize, usize, usize)>)>,
    r1: Seq<((usize, usize), Vec<(usize, usize, usize)>)>,
    n: int,
    i: int,
    key: (usize, usize),
    tris: Seq<(usize, usize, usize)>,
)
    requires
        groups_ok(m, r0, n),
        0 <= i < r0.len(),
        r0[i].0 == key,
        r1.len() == r0.len(),
        r1[i].0 == key,
        r1[i].1@ == r0[i].1@ + tris,
        forall|j: int| 0 <= j < r1.len() && j != i ==> #[trigger] r1[j] == r0[j],
        forall|kk: (usize, usize)| #[trigger] key_tris(m, kk, n + 1) == key_tris(m, kk, n) + if kk == key {
            tris
        } else {
            Seq::empty()
        },
    ensures
        groups_ok(m, r1, n + 1),
{
    assert forall|a: int, b: int| 0 <= a < b < r1.len() implies key_lt(#[trigger] r1[a].0, #[trigger] r1[b].0) by {
        assert(key_lt(r0[a].0, r0[b].0));
    }
    assert forall|j: int| 0 <= j < r1.len() implies (#[trigger] r1[j]).1@ == key_tris(m, r1[j].0, n + 1) && r1[j].1@.len() > 0 by {
        let _ = r0[j];
        if j != i {
            assert(r0[j].0 != key) by {
                if r0[j].0 == key {
                    if j < i {
                        assert(key_lt(r0[j].0, r0[i].0));
                    } else {
                        assert(key_lt(r0[i].0, r0[j].0));
                    }
                }
            }
            assert(key_tris(m, r0[j].0, n + 1) =~= key_tris(m, r0[j].0, n));
        }
    }
    assert forall|kk: (usize, usize)| #[trigger] key_tris(m, kk, n + 1).len() > 0 implies exists|j: int| 0 <= j < r1.len() && r1[j].0 == kk by {
        if kk == key {
            assert(r1[i].0 == kk);
        } else {
            assert(key_tris(m, kk, n + 1) =~= key_tris(m, kk, n));
            let j = choose|j: int| 0 <= j < r0.len() && r0[j].0 == kk;
            assert(r1[j] == r0[j]);
        }
    }
}

proof fn lemma_groups_insert(
    m: HalfEdgeMesh,
    r0: Seq<((usize, usize), Vec<(usize, usize, usize)>)>,
    r1: Seq<((usize, usize), Vec<(usize, usize, usize)>)>,
    n: int,
    i: int,
    key: (usize, usize),
    tris: Seq<(usize, usize, usize)>,
)
    requires
        groups_ok(m, r0, n),
        0 <= i <= r0.len(),
        forall|j: int| 0 <= j < i ==> key_lt(#[trigger] r0[j].0, key),
        i < r0.len() ==> !key_lt(r0[i].0, key) && r0[i].0 != key,
        tris.len() > 0,
        r1 == r0.insert(i, (key, r1[i].1)),
        r1[i].1@ == tris,
        forall|kk: (usize, usize)| #[trigger] key_tris(m, kk, n + 1) == key_tris(m, kk, n) + if kk == key {
            tris
        } else {
            Seq::empty()
        },
    ensures
        groups_ok(m, r1, n + 1),
{
    assert(key_tris(m, key, n).len() == 0) by {
        if key_tris(m, key, n).len() > 0 {
            let j = choose|j: int| 0 <= j < r0.len() && r0[j].0 == key;
            if j < i {
                assert(key_lt(r0[j].0, key));
            } else if j == i {
            } else {
                assert(key_lt(r0[i].0, r0[j].0));
            }
        }
    }
    assert forall|a: int, b: int| 0 <= a < b < r1.len() implies key_lt(#[trigger] r1[a].0, #[trigger] r1[b].0) by {
        if a < i && b < i {
            assert(key_lt(r0[a].0, r0[b].0));
        } else if a < i && b == i {
        } else if a < i && b > i {
            assert(key_lt(r0[a].0, r0[b - 1].0));
        } else if a == i {
            if b - 1 > i {
                assert(key_lt(r0[i].0, r0[b - 1].0));
            }
        } else {
            assert(key_lt(r0[a - 1].0, r0[b - 1].0));
        }
    }
    assert forall|j: int| 0 <= j < r1.len() implies (#[trigger] r1[j]).1@ == key_tris(m, r1[j].0, n + 1) && r1[j].1@.len() > 0 by {
        if j == i {
            assert(key_tris(m, key, n + 1) =~= tris);
        } else {
            let j0 = if j < i { j } else { j - 1 };
            assert(r1[j] == r0[j0]);
            assert(r0[j0].0 != key);
            assert(key_tris(m, r0[j0].0, n + 1) =~= key_tris(m, r0[j0].0, n));
        }
    }
    assert forall|kk: (usize, usize)| #[trigger] key_tris(m, kk, n + 1).len() > 0 implies exists|j: int| 0 <= j < r1.len() && r1[j].0 == kk by {
        if kk == key {
            assert(r1[i].0 == kk);
        } else {
            assert(key_tris(m, kk, n + 1) =~= key_tris(m, kk, n));
            let j = choose|j: int| 0 <= j < r0.len() && r0[j].0 == kk;
            if j < i {
                assert(r1[j] == r0[j]);
            } else {
                assert(r1[j + 1] == r0[j]);
            }
        }
    }
}

/// The triangles of one patch over its own vertices.
pub struct PatchSubMesh {
    pub positions: Vec<glam::Vec3>,
    pub uvs: Vec<glam::Vec2>,
    pub tris: Vec<(usize, usize, usize)>,
}

/// Vertex `v` is a corner of one of `tris`.
pub open spec fn tri_uses(tris: Seq<(usize, usize, usize)>, v: usize) -> bool {
    exists|k: int| 0 <= k < tris.len() && (#[trigger] tris[k].0 == v || tris[k].1 == v || tris[k].2 == v)
}

/// Position of `v` in `vl`.
pub open spec fn local_index(vl: Seq<usize>, v: usize) -> usize {
    (choose|i: int| 0 <= i < vl.len() && vl[i] == v) as usize
}

/// `sub` is the patch with triangles `tris` over the vertices `vl` of `m`
/// that they use, in increasing order of their index in `m`.
pub open spec fn submesh_with(m: HalfEdgeMesh, tris: Seq<(usize, usize, usize)>, sub: PatchSubMesh, vl: Seq<usize>) -> bool {
    &&& forall|i: int, j: int| 0 <= i < j < vl.len() ==> #[trigger] vl[i] < #[trigger] vl[j]
    &&& forall|v: usize| #[trigger] vl.contains(v) <==> tri_uses(tris, v)
    &&& sub.positions@ == vl.map_values(|v: usize| m.vertices@[v as int].position)
    &&& sub.uvs@ == vl.map_values(|v: usize| m.vertices@[v as int].uv)
    &&& sub.tris@ == tris.map_values(
        |t: (usize, usize, usize)| (local_index(vl, t.0), local_index(vl, t.1), local_index(vl, t.2)),
    )
}

/// `sub` is the patch with triangles `tris` over the vertices of `m` that
/// they use, renumbered in increasing order of their index in `m`.
pub open spec fn submesh_of(m: HalfEdgeMesh, tris: Seq<(usize, usize, usize)>, sub: PatchSubMesh) -> bool {
    exists|vl: Seq<usize>| #[trigger] submesh_with(m, tris, sub, vl)
}

/// `r` pairs each group of `g` with its sub-mesh.
pub open spec fn submeshes_of(m: HalfEdgeMesh, r: Seq<((usize, usize), PatchSubMesh)>, g: Seq<((usize, usize), Vec<(usize, usize, usize)>)>) -> bool {
    &&& groups_ok(m, g, m.nf())
    &&& r.len() == g.len()
    &&& forall|i: int| 0 <= i < g.len() ==> (#[trigger] r[i]).0 == g[i].0 && submesh_of(m, g[i].1@, r[i].1)
}

/// The sub-mesh of one patch's triangles (see `submesh_of`).
fn build_submesh(mesh: &HalfEdgeMesh, tris: &Vec<(usize, usize, usize)>) -> (sub: PatchSubMesh)
    requires
        forall|k: int| 0 <= k < tris@.len() ==> (#[trigger] tris@[k]).0 < mesh.nv() && tris@[k].1 < mesh.nv() && tris@[k].2 < mesh.nv(),
    ensures
        submesh_of(*mesh, tris@, sub),
{
    let nv = mesh.vertices.len();
    let mut used: Vec<bool> = Vec::new();
    let mut i: usize = 0;
    while i < nv
        invariant
            i <= nv,
            used@.len() == i,
            forall|v: int| 0 <= v < i ==> !(#[trigger] used@[v]),
        decreases nv - i,
    {
        used.push(false);
        i = i + 1;
    }
    let mut k: usize = 0;
    while k < tris.len()
        invariant
            nv == mesh.nv(),
            used@.len() == nv,
            k <= tris@.len(),
            forall|q: int| 0 <= q < tris@.len() ==> (#[trigger] tris@[q]).0 < nv && tris@[q].1 < nv && tris@[q].2 < nv,
            forall|v: int| 0 <= v < nv ==> (#[trigger] used@[v] <==> tri_uses(tris@.take(k as int), v as usize)),
        decreases tris@.len() - k,
    {
        let t = tris[k];
        used.set(t.0, true);
        used.set(t.1, true);
        used.set(t.2, true);
        proof {
            let p = tris@.take(k + 1);
            assert forall|v: int| 0 <= v < nv implies (#[trigger] used@[v] <==> tri_uses(p, v as usize)) by {
                let vu = v as usize;
                assert(p[k as int] == t);
                if tri_uses(tris@.take(k as int), vu) {
                    let q = choose|q: int| 0 <= q < k && (#[trigger] tris@.take(k as int)[q].0 == vu || tris@.take(k as int)[q].1 == vu || tris@.take(k as int)[q].2 == vu);
                    assert(p[q] == tris@.take(k as int)[q]);
                }
                if tri_uses(p, vu) {
                    let q = choose|q: int| 0 <= q < k + 1 && (#[trigger] p[q].0 == vu || p[q].1 == vu || p[q].2 == vu);
                    if q < k {
                        assert(tris@.take(k as int)[q] == p[q]);
                    }
                }
            }
        }
        k = k + 1;
    }
    proof {
        assert(tris@.take(tris@.len() as int) =~= tris@);
    }
    let mut vert_list: Vec<usize> = Vec::new();
    let mut old_to_new: Vec<usize> = Vec::new();
    let mut v: usize = 0;
    while v < nv
        invariant
            nv == mesh.nv(),
            used@.len() == nv,
            v <= nv,
            old_to_new@.len() == v,
            forall|a: int, b: int| 0 <= a < b < vert_list@.len() ==> #[trigger] vert_list@[a] < #[trigger] vert_list@[b],
            forall|a: int| 0 <= a < vert_list@.len() ==> (#[trigger] vert_list@[a]) < v && used@[vert_list@[a] as int],
            forall|w: int| 0 <= w < v && #[trigger] used@[w] ==> vert_list@.contains(w as usize),
            forall|w: int| 0 <= w < v && #[trigger] used@[w] ==> old_to_new@[w] < vert_list@.len() && vert_list@[old_to_new@[w] as int] == w,
            vert_list@.len() <= v,
        decreases nv - v,
    {
        let ghost vl0 = vert_list@;
        if used[v] {
            old_to_new.push(vert_list.len());
            vert_list.push(v);
        } else {
            old_to_new.push(0);
        }
        proof {
            assert forall|w: int| 0 <= w < v + 1 && #[trigger] used@[w] implies vert_list@.contains(w as usize) by {
                if w < v {
                    let q = choose|q: int| 0 <= q < vl0.len() && vl0[q] == w as usize;
                    assert(vert_list@[q] == w as usize);
                } else {
                    assert(vert_list@[vert_list@.len() - 1] == v);
                }
            }
        }
        v = v + 1;
    }
    let mut positions: Vec<glam::Vec3> = Vec::new();
    let mut uvs: Vec<glam::Vec2> = Vec::new();
    let mut a: usize = 0;
    while a < vert_list.len()
        invariant
            nv == mesh.nv(),
            a <= vert_list@.len(),
            forall|q: int| 0 <= q < vert_list@.len() ==> (#[trigger] vert_list@[q]) < nv,
            positions@ == vert_list@.take(a as int).map_values(|w: usize| mesh.vertices@[w as int].position),
            uvs@ == vert_list@.take(a as int).map_values(|w: usize| mesh.vertices@[w as int].uv),
        decreases vert_list@.len() - a,
    {
        let w = vert_list[a];
        positions.push(mesh.vertices[w].position);
        uvs.push(mesh.vertices[w].uv);
        proof {
            assert(positions@ =~= vert_list@.take(a + 1).map_values(|w: usize| mesh.vertices@[w as int].position));
            assert(uvs@ =~= vert_list@.take(a + 1).map_values(|w: usize| mesh.vertices@[w as int].uv));
        }
        a = a + 1;
    }
    let ghost vl = vert_list@;
    proof {
        assert(vl.take(vl.len() as int) =~= vl);
        assert forall|w: usize| #[trigger] vl.contains(w) <==> tri_uses(tris@, w) by {
            if vl.contains(w) {
                let q = choose|q: int| 0 <= q < vl.len() && vl[q] == w;
                assert(used@[vl[q] as int]);
            }
            if tri_uses(tris@, w) {
                let q = choose|q: int| 0 <= q < tris@.len() && (#[trigger] tris@[q].0 == w || tris@[q].1 == w || tris@[q].2 == w);
                assert(w < nv);
                assert(used@[w as int]);
            }
        }
        assert forall|w: int| 0 <= w < nv && #[trigger] used@[w] implies local_index(vl, w as usize) == old_to_new@[w] by {
            let i1 = local_index(vl, w as usize);
            assert(vl[old_to_new@[w] as int] == w);
            let c = choose|i: int| 0 <= i < vl.len() && vl[i] == w as usize;
            if c < old_to_new@[w] {
                assert(vl[c] < vl[old_to_new@[w] as int]);
            } else if c > old_to_new@[w] {
                assert(vl[old_to_new@[w] as int] < vl[c]);
            }
        }
    }
    let mut local: Vec<(usize, usize, usize)> = Vec::new();
    let mut k: usize = 0;
    while k < tris.len()
        invariant
            nv == mesh.nv(),
            old_to_new@.len() == nv,
            used@.len() == nv,
            k <= tris@.len(),
            forall|q: int| 0 <= q < tris@.len() ==> (#[trigger] tris@[q]).0 < nv && tris@[q].1 < nv && tris@[q].2 < nv,
            forall|w: int| 0 <= w < nv ==> (#[trigger] used@[w] <==> tri_uses(tris@, w as usize)),
            forall|w: int| 0 <= w < nv && #[trigger] used@[w] ==> local_index(vl, w as usize) == old_to_new@[w],
            local@ == tris@.take(k as int).map_values(
                |t: (usize, usize, usize)| (local_index(vl, t.0), local_index(vl, t.1), local_index(vl, t.2)),
            ),
        decreases tris@.len() - k,
    {
        let t = tris[k];
        proof {
            assert(tri_uses(tris@, t.0) && tri_uses(tris@, t.1) && tri_uses(tris@, t.2)) by {
                assert(tris@[k as int] == t);
            }
            assert(used@[t.0 as int] && used@[t.1 as int] && used@[t.2 as int]);
        }
        local.push((old_to_new[t.0], old_to_new[t.1], old_to_new[t.2]));
        proof {
            assert(local@ =~= tris@.take(k + 1).map_values(
                |t: (usize, usize, usize)| (local_index(vl, t.0), local_index(vl, t.1), local_index(vl, t.2)),
            ));
        }
        k = k + 1;
    }
    proof {
        assert(tris@.take(tris@.len() as int) =~= tris@);
    }
    let sub = PatchSubMesh { positions, uvs, tris: local };
    proof {
        assert(vl.take(vl.len() as int) =~= vl);
        assert(sub.positions@ == vl.map_values(|v: usize| mesh.vertices@[v as int].position));
        assert(submesh_with(*mesh, tris@, sub, vl));
    }
    sub
}

/// The sub-mesh of each patch, in increasing patch order: the fan
/// triangles of the patch's faces (see `collect_patch_groups`) over the
/// vertices they use (see `submesh_of`).
pub fn collect_patch_submeshes(mesh: &HalfEdgeMesh) -> (r: Vec<((usize, usize), PatchSubMesh)>)
    requires
        mesh.bounded(),
    ensures
        exists|g: Seq<((usize, usize), Vec<(usize, usize, usize)>)>| #[trigger] submeshes_of(*mesh, r@, g),
{
    let groups = collect_patch_groups(mesh);
    let mut r: Vec<((usize, usize), PatchSubMesh)> = Vec::new();
    let mut i: usize = 0;
    while i < groups.len()
        invariant
            i <= groups@.len(),
            r@.len() == i,
            forall|j: int, k: int| 0 <= j < groups@.len() && 0 <= k < groups@[j].1@.len() ==> (#[trigger] groups@[j].1@[k]).0 < mesh.nv()
                && groups@[j].1@[k].1 < mesh.nv() && groups@[j].1@[k].2 < mesh.nv(),
            forall|j: int| 0 <= j < i ==> (#[trigger] r@[j]).0 == groups@[j].0 && submesh_of(*mesh, groups@[j].1@, r@[j].1),
        decreases groups@.len() - i,
    {
        let sub = build_submesh(mesh, &groups[i].1);
        r.push((groups[i].0, sub));
        i = i + 1;
    }
    proof {
        assert(submeshes_of(*mesh, r@, groups@));
    }
    r
}

} // verus!
