//! Cuts of the torus meshes with the parameter-space geometry that the
//! program hands the library: straight grid lines and `(1, k)` knots.

use glam::{Vec2, Vec3};
use std::f64::consts::PI;
use torus_grid_cutter::mesh::cut::{
    cut_mesh_by_grid, faces_around_vertex, get_face_uvs, grid_edge_may_cross, knot_edge_crosses, line_contact,
    LineContact, Side, TriangleIntersection,
};
use torus_grid_cutter::mesh::delaunay::SimpleRng;
use torus_grid_cutter::mesh::half_edge::{FaceId, HalfEdgeId, HalfEdgeMesh, VertexId};
use torus_grid_cutter::mesh::knot::{cut_mesh_by_knots, BoundaryPlacement, ChordCrossing};
use torus_grid_cutter::mesh::regions::assign_connected_components_knot;

type UvRange = (f64, f64, f64, f64);
type Corner = (usize, Vec2, Vec3);

const EPSILON: f64 = 1e-8;
/// Tolerance for classifying a corner as lying on a grid line.
const MERGE_EPS: f64 = 1e-4;
/// Tolerance (3D) for reusing a face corner as a knot crossing point.
const COINCIDENT_TOL: f64 = 1e-4;
/// Snap distance (parameter units) of a knot curve to a corner.
const KNOT_SNAP_UV: f64 = 1e-3;

fn knot_snap_phi(k: f64) -> f64 {
    KNOT_SNAP_UV * (1.0 + k * k).sqrt()
}

/// Normalises a parameter value from `[min, max]` to `[0, 2π)`.
fn normalize_uv(val: f64, min: f64, max: f64) -> f64 {
    let range = max - min;
    if range < 1e-12 {
        return 0.0;
    }
    (val - min) / range * 2.0 * PI
}

/// Shifts `angle` by multiples of 2π to within π of `reference`.
fn unwrap_angle(angle: f64, reference: f64) -> f64 {
    let two_pi = 2.0 * PI;
    let mut a = angle;
    while a - reference > PI {
        a -= two_pi;
    }
    while a - reference < -PI {
        a += two_pi;
    }
    a
}

fn torus_position(u: f64, v: f64, major_r: f64, minor_r: f64) -> Vec3 {
    let rr = major_r + minor_r * v.cos();
    Vec3::new(
        rr as f32 * u.cos() as f32,
        rr as f32 * u.sin() as f32,
        minor_r as f32 * v.sin() as f32,
    )
}

fn unwrapped(face_verts: &[Corner], range: UvRange) -> (Vec<f64>, Vec<f64>) {
    let (min_u, max_u, min_v, max_v) = range;
    let u0 = normalize_uv(face_verts[0].1.x as f64, min_u, max_u);
    let v0 = normalize_uv(face_verts[0].1.y as f64, min_v, max_v);
    let us = face_verts
        .iter()
        .map(|fv| unwrap_angle(normalize_uv(fv.1.x as f64, min_u, max_u), u0))
        .collect();
    let vs = face_verts
        .iter()
        .map(|fv| unwrap_angle(normalize_uv(fv.1.y as f64, min_v, max_v), v0))
        .collect();
    (us, vs)
}

fn side_of(diff: f64, tol: f64) -> Side {
    if diff.abs() < tol {
        Side::OnLine
    } else if diff < 0.0 {
        Side::Less
    } else {
        Side::Greater
    }
}

fn all_corners(face_verts: &[Corner]) -> TriangleIntersection {
    TriangleIntersection {
        edge_points: Vec::new(),
        on_line_vertices: face_verts.iter().map(|c| c.0).collect(),
    }
}

/// Where the grid line `u = c` (`is_u`) or `v = c` meets a face.
fn intersect_face_line(face_verts: &[Corner], is_u: bool, c: f64, range: UvRange) -> Option<TriangleIntersection> {
    let n = face_verts.len();
    if n < 3 {
        return None;
    }
    let (min_u, max_u, min_v, max_v) = range;
    let (us, vs) = unwrapped(face_verts, range);
    let (coord, lo, hi) = if is_u { (&us, min_u, max_u) } else { (&vs, min_v, max_v) };
    let c_unwrap = unwrap_angle(normalize_uv(c, lo, hi), coord[0]);
    let sides: Vec<Side> = coord.iter().map(|&x| side_of(x - c_unwrap, MERGE_EPS)).collect();
    match line_contact(&sides) {
        LineContact::Miss => return None,
        LineContact::AllOnLine => return Some(all_corners(face_verts)),
        LineContact::Meets => {}
    }
    let mut on_line_vertices: Vec<usize> =
        (0..n).filter(|&i| sides[i] == Side::OnLine).map(|i| face_verts[i].0).collect();
    let mut edge_points = Vec::new();
    for e in 0..n {
        let (i0, i1) = (e, (e + 1) % n);
        if !grid_edge_may_cross(sides[i0], sides[i1]) {
            continue;
        }
        let d = coord[i1] - coord[i0];
        if d.abs() <= EPSILON {
            continue;
        }
        let t = (c_unwrap - coord[i0]) / d;
        if !(-EPSILON..=1.0 + EPSILON).contains(&t) {
            continue;
        }
        let t = t.clamp(0.0, 1.0);
        if sides[i0] == Side::OnLine && t < MERGE_EPS {
            continue;
        }
        if sides[i1] == Side::OnLine && t > 1.0 - MERGE_EPS {
            continue;
        }
        edge_points.push(edge_point(face_verts, &us, &vs, i0, i1, t, range));
    }
    on_line_vertices.sort();
    on_line_vertices.dedup();
    Some(TriangleIntersection { edge_points, on_line_vertices })
}

fn edge_point(
    face_verts: &[Corner],
    us: &[f64],
    vs: &[f64],
    i0: usize,
    i1: usize,
    t: f64,
    range: UvRange,
) -> (usize, usize, Vec3, Vec2) {
    let (min_u, max_u, min_v, max_v) = range;
    let p0 = face_verts[i0].2;
    let p1 = face_verts[i1].2;
    let pos = p0 + (t as f32) * (p1 - p0);
    let u = (us[i0] + t * (us[i1] - us[i0])).clamp(min_u, max_u);
    let v = (vs[i0] + t * (vs[i1] - vs[i0])).clamp(min_v, max_v);
    (face_verts[i0].0, face_verts[i1].0, pos, Vec2::new(u as f32, v as f32))
}

fn face_phi(face_verts: &[Corner], k: f64, range: UvRange) -> (Vec<f64>, Vec<f64>, Vec<f64>) {
    let (us, vs) = unwrapped(face_verts, range);
    let phi = vs.iter().zip(us.iter()).map(|(&v, &u)| v - k * u).collect();
    (us, vs, phi)
}

/// The knot branches (`v - k·u` in `[2πn, 2π(n+1))`) that a face may meet.
fn knot_branch_range(face_verts: &[Corner], k: f64, range: UvRange) -> (isize, isize) {
    let two_pi = 2.0 * PI;
    let (_, _, phi) = face_phi(face_verts, k, range);
    let phi_min = phi.iter().cloned().fold(f64::MAX, f64::min);
    let phi_max = phi.iter().cloned().fold(f64::MIN, f64::max);
    let snap = knot_snap_phi(k);
    let n_min = ((phi_min - snap) / two_pi).floor() as isize;
    let n_max = ((phi_max + snap) / two_pi).floor() as isize;
    if n_min <= n_max {
        (n_min, n_max)
    } else {
        (n_max, n_min)
    }
}

/// Where branch `branch` of the knot `v = k·u + 2π·branch` meets a face.
fn intersect_face_knot_branch(
    face_verts: &[Corner],
    k: f64,
    branch: isize,
    range: UvRange,
) -> Option<TriangleIntersection> {
    let n = face_verts.len();
    if n < 3 {
        return None;
    }
    let (us, vs, phi) = face_phi(face_verts, k, range);
    let target = 2.0 * PI * branch as f64;
    let snap = knot_snap_phi(k);
    let sides: Vec<Side> = phi.iter().map(|&p| side_of(p - target, snap)).collect();
    match line_contact(&sides) {
        LineContact::Miss => return None,
        LineContact::AllOnLine => return Some(all_corners(face_verts)),
        LineContact::Meets => {}
    }
    let mut on_line_vertices: Vec<usize> =
        (0..n).filter(|&i| sides[i] == Side::OnLine).map(|i| face_verts[i].0).collect();
    let mut edge_points = Vec::new();
    for e in 0..n {
        let (i0, i1) = (e, (e + 1) % n);
        if !knot_edge_crosses(sides[i0], sides[i1]) {
            continue;
        }
        let d0 = phi[i0] - target;
        let d1 = phi[i1] - target;
        let denom = d1 - d0;
        if denom.abs() <= EPSILON {
            continue;
        }
        let t = -d0 / denom;
        if !(-EPSILON..=1.0 + EPSILON).contains(&t) {
            continue;
        }
        edge_points.push(edge_point(face_verts, &us, &vs, i0, i1, t.clamp(0.0, 1.0), range));
    }
    on_line_vertices.sort();
    on_line_vertices.dedup();
    Some(TriangleIntersection { edge_points, on_line_vertices })
}

/// Every branch of every knot in `ks` that meets a face, with the index of
/// its knot.
fn knot_branches(face_verts: &[Corner], ks: &[f64], range: UvRange) -> Vec<(usize, TriangleIntersection)> {
    let mut out = Vec::new();
    if face_verts.len() < 3 {
        return out;
    }
    for (ki, &k) in ks.iter().enumerate() {
        let (lo, hi) = knot_branch_range(face_verts, k, range);
        for branch in lo..=hi {
            if let Some(isect) = intersect_face_knot_branch(face_verts, k, branch, range) {
                out.push((ki, isect));
            }
        }
    }
    out
}

/// Where a knot point `pos` on a face's boundary path goes: a corner of the
/// face within `COINCIDENT_TOL`, else the nearest sub-edge of the path, split
/// at the projection of `pos`.
fn place_boundary_point(mesh: &HalfEdgeMesh, face: FaceId, path: &[HalfEdgeId], pos: Vec3) -> BoundaryPlacement {
    let mut best: Option<usize> = None;
    let mut best_d = f32::MAX;
    for (i, h) in path.iter().enumerate() {
        let (po, pn) = segment(mesh, *h);
        let seg = pn - po;
        let seg2 = seg.length_squared();
        if seg2 < 1e-20 {
            continue;
        }
        let t = ((pos - po).dot(seg) / seg2).clamp(0.0, 1.0);
        let d = (po + seg * t - pos).length_squared();
        if d < best_d {
            best_d = d;
            best = Some(i);
        }
    }
    let Some(i) = best else {
        return BoundaryPlacement::Missing;
    };
    if let Some(v) = face_vertex_near(mesh, face, pos, COINCIDENT_TOL as f32) {
        return BoundaryPlacement::Corner(v);
    }
    let (po, pn) = segment(mesh, path[i]);
    let seg = pn - po;
    let seg2 = seg.length_squared().max(1e-20);
    let t = ((pos - po).dot(seg) / seg2).clamp(0.0, 1.0);
    BoundaryPlacement::Split(i, po + seg * t)
}

fn segment(mesh: &HalfEdgeMesh, h: HalfEdgeId) -> (Vec3, Vec3) {
    let e = mesh.half_edges[h.0];
    let o = e.origin.0;
    let n = mesh.half_edges[e.next.0].origin.0;
    (mesh.vertices[o].position, mesh.vertices[n].position)
}

fn face_corner_ids(mesh: &HalfEdgeMesh, face: FaceId) -> Vec<VertexId> {
    mesh.face_half_edges(face).iter().map(|h| mesh.half_edges[h.0].origin).collect()
}

fn face_vertex_near(mesh: &HalfEdgeMesh, face: FaceId, pos: Vec3, tol: f32) -> Option<VertexId> {
    let t2 = tol * tol;
    let mut best: Option<(f32, VertexId)> = None;
    for v in face_corner_ids(mesh, face) {
        let d = (mesh.vertices[v.0].position - pos).length_squared();
        if d < t2 && best.map_or(true, |(bd, _)| d < bd) {
            best = Some((d, v));
        }
    }
    best.map(|(_, v)| v)
}

/// Orders a branch's points along its direction `(1, k)`, all taken in the
/// frame of the face's first corner.
fn order_along_branch(mesh: &HalfEdgeMesh, face: FaceId, verts: &[VertexId], k: f64, range: UvRange) -> Vec<VertexId> {
    let (min_u, max_u, min_v, max_v) = range;
    let corners = face_corner_ids(mesh, face);
    let Some(first) = corners.first() else {
        return verts.to_vec();
    };
    let r = mesh.vertices[first.0].uv;
    let ru = normalize_uv(r.x as f64, min_u, max_u);
    let rv = normalize_uv(r.y as f64, min_v, max_v);
    let mut keyed: Vec<(f64, VertexId)> = verts
        .iter()
        .map(|&v| {
            let uv = mesh.vertices[v.0].uv;
            let u = unwrap_angle(normalize_uv(uv.x as f64, min_u, max_u), ru);
            let w = unwrap_angle(normalize_uv(uv.y as f64, min_v, max_v), rv);
            (u + k * w, v)
        })
        .collect();
    keyed.sort_by(|a, b| a.0.partial_cmp(&b.0).unwrap_or(std::cmp::Ordering::Equal));
    keyed.into_iter().map(|(_, v)| v).collect()
}

fn seg_intersect_2d(p1: (f64, f64), p2: (f64, f64), p3: (f64, f64), p4: (f64, f64)) -> Option<(f64, f64)> {
    let d1 = (p2.0 - p1.0, p2.1 - p1.1);
    let d2 = (p4.0 - p3.0, p4.1 - p3.1);
    let denom = d1.0 * d2.1 - d1.1 * d2.0;
    if denom.abs() < 1e-12 {
        return None;
    }
    let t = ((p3.0 - p1.0) * d2.1 - (p3.1 - p1.1) * d2.0) / denom;
    let u = ((p3.0 - p1.0) * d1.1 - (p3.1 - p1.1) * d1.0) / denom;
    if (0.0..=1.0).contains(&t) && (0.0..=1.0).contains(&u) {
        Some((p1.0 + t * d1.0, p1.1 + t * d1.1))
    } else {
        None
    }
}

/// Where the chord `a-b` crosses a cut edge of a face round `a`, all in the
/// parameter frame of that face's first corner.
fn find_chord_crossing(mesh: &HalfEdgeMesh, a: VertexId, b: VertexId, range: UvRange) -> Option<ChordCrossing> {
    let (min_u, max_u, min_v, max_v) = range;
    let nu = |x: f32, r: f64| unwrap_angle(normalize_uv(x as f64, min_u, max_u), r);
    let nv = |x: f32, r: f64| unwrap_angle(normalize_uv(x as f64, min_v, max_v), r);
    for f in faces_around_vertex(mesh, a) {
        let fv = get_face_uvs(mesh, f);
        if fv.is_empty() {
            continue;
        }
        let ru = normalize_uv(fv[0].1.x as f64, min_u, max_u);
        let rv = normalize_uv(fv[0].1.y as f64, min_v, max_v);
        let (a_uv, b_uv) = (mesh.vertices[a.0].uv, mesh.vertices[b.0].uv);
        let pa = (nu(a_uv.x, ru), nv(a_uv.y, rv));
        let pb = (nu(b_uv.x, ru), nv(b_uv.y, rv));
        for hf in mesh.face_half_edges(f) {
            let e = mesh.half_edges[hf.0];
            if !e.cut || e.twin.0 == usize::MAX || hf.0 > e.twin.0 {
                continue;
            }
            let o = e.origin;
            let nb = mesh.half_edges[e.next.0].origin;
            if o == a || nb == a || o == b || nb == b {
                continue;
            }
            let (ouv, nbuv) = (mesh.vertices[o.0].uv, mesh.vertices[nb.0].uv);
            let po = (nu(ouv.x, ru), nv(ouv.y, rv));
            let pn = (nu(nbuv.x, ru), nv(nbuv.y, rv));
            if let Some((tu, tv)) = seg_intersect_2d(pa, pb, po, pn) {
                let t = if (pn.0 - po.0).abs() > 1e-12 {
                    ((tu - po.0) / (pn.0 - po.0)).clamp(0.0, 1.0)
                } else {
                    ((tv - po.1) / (pn.1 - po.1)).clamp(0.0, 1.0)
                };
                let p_o = mesh.vertices[o.0].position;
                let p_nb = mesh.vertices[nb.0].position;
                return Some(ChordCrossing {
                    face: f,
                    o,
                    nb,
                    position: p_o + (p_nb - p_o) * (t as f32),
                    uv: ouv + (nbuv - ouv) * (t as f32),
                });
            }
        }
    }
    None
}

/// Circular mean of a face's corner coordinates, back in the raw range.
fn circular_centroid(mesh: &HalfEdgeMesh, face: FaceId, range: UvRange) -> Option<(f64, f64)> {
    let fv = get_face_uvs(mesh, face);
    if fv.is_empty() {
        return None;
    }
    let (min_u, max_u, min_v, max_v) = range;
    let (us, vs) = unwrapped(&fv, range);
    let n = fv.len() as f64;
    let two_pi = 2.0 * PI;
    let au = (us.iter().sum::<f64>() / n % two_pi + two_pi) % two_pi;
    let av = (vs.iter().sum::<f64>() / n % two_pi + two_pi) % two_pi;
    Some((min_u + au / two_pi * (max_u - min_u), min_v + av / two_pi * (max_v - min_v)))
}

/// Number of regions two knots `(1, k1)`, `(1, k2)` cut the torus into
/// (`|k2 - k1|`, 0 when they coincide), and each valid face's region class
/// `(⌊(v − k1·u)/2π⌋ − ⌊(v − k2·u)/2π⌋) mod d` from its centroid.
fn knot_classes(mesh: &HalfEdgeMesh, k1: f64, k2: f64, range: UvRange) -> (usize, Vec<Option<usize>>) {
    let two_pi = 2.0 * PI;
    let (min_u, max_u, min_v, max_v) = range;
    let d = (k2 - k1).abs();
    let d = if d < 1e-9 { 0 } else { (d + 0.5) as isize };
    let mut classes = vec![None; mesh.faces.len()];
    if d == 0 {
        return (0, classes);
    }
    for (fi, class) in classes.iter_mut().enumerate() {
        if !mesh.faces[fi].valid {
            continue;
        }
        let Some((cu, cv)) = circular_centroid(mesh, FaceId(fi), range) else {
            continue;
        };
        let u = normalize_uv(cu, min_u, max_u);
        let v = normalize_uv(cv, min_v, max_v);
        let n1 = ((v - k1 * u) / two_pi).floor() as isize;
        let n2 = ((v - k2 * u) / two_pi).floor() as isize;
        *class = Some((((n1 - n2) % d) + d) as usize % d as usize);
    }
    (d as usize, classes)
}

/// A number in `[0, 1)` from the generator.
fn next_unit(rng: &mut SimpleRng) -> f64 {
    rng.next_raw() as f64 / (1u64 << 31) as f64
}

/// Delaunay triangulation of the rectangle `[0, 2π]²`: points along the four
/// sides (nudged along their side) and the corners, plus random interior
/// points; the seams stay open.
fn generate_delaunay_mesh(
    major_r: f64,
    minor_r: f64,
    num_points: usize,
    seed: u64,
) -> (Vec<Vec3>, Vec<Vec2>, Vec<(usize, usize, usize)>) {
    let two_pi = 2.0 * PI;
    let mut rng = SimpleRng::new(seed);
    let boundary_n = (num_points / 20).clamp(8, 64);
    let mut uvs: Vec<Vec2> = Vec::with_capacity(num_points);
    let step = two_pi / boundary_n as f64;
    let jitter = 1e-4;
    for j in 0..boundary_n {
        let t = step * j as f64;
        let jx = next_unit(&mut rng) * jitter;
        let jy = next_unit(&mut rng) * jitter;
        uvs.push(Vec2::new(0.0, (t + jx) as f32));
        uvs.push(Vec2::new(two_pi as f32, (t + jy) as f32));
        if j > 0 && j < boundary_n - 1 {
            uvs.push(Vec2::new((t + jx) as f32, 0.0));
            uvs.push(Vec2::new((t + jy) as f32, two_pi as f32));
        }
    }
    uvs.push(Vec2::new(0.0, 0.0));
    uvs.push(Vec2::new(two_pi as f32, 0.0));
    uvs.push(Vec2::new(0.0, two_pi as f32));
    uvs.push(Vec2::new(two_pi as f32, two_pi as f32));
    let interior = num_points.saturating_sub(uvs.len());
    let margin = step * 0.5;
    for _ in 0..interior {
        let u = margin + next_unit(&mut rng) * (two_pi - 2.0 * margin);
        let v = margin + next_unit(&mut rng) * (two_pi - 2.0 * margin);
        uvs.push(Vec2::new(u as f32, v as f32));
    }
    let positions: Vec<Vec3> = uvs
        .iter()
        .map(|uv| torus_position(uv.x as f64, uv.y as f64, major_r, minor_r))
        .collect();
    let triangles = periodic_delaunay(&uvs, false, false, two_pi as f32, two_pi as f32);
    (positions, uvs, triangles)
}

/// Delaunay triangulation of parameter points, optionally tiled for a
/// periodic domain; each triangle is kept once, by its centroid lying in
/// the central tile.
fn periodic_delaunay(
    uvs: &[Vec2],
    periodic_u: bool,
    periodic_v: bool,
    period_u: f32,
    period_v: f32,
) -> Vec<(usize, usize, usize)> {
    let n = uvs.len();
    if n < 3 {
        return Vec::new();
    }
    let min_x = uvs.iter().fold(f32::MAX, |a, p| a.min(p.x));
    let min_y = uvs.iter().fold(f32::MAX, |a, p| a.min(p.y));
    let du_range: Vec<i32> = if periodic_u { vec![-1, 0, 1] } else { vec![0] };
    let dv_range: Vec<i32> = if periodic_v { vec![-1, 0, 1] } else { vec![0] };
    let mut tiled: Vec<delaunator::Point> = Vec::new();
    let mut orig_idx: Vec<usize> = Vec::new();
    for &du in &du_range {
        for &dv in &dv_range {
            for (i, p) in uvs.iter().enumerate() {
                tiled.push(delaunator::Point {
                    x: (p.x + du as f32 * period_u) as f64,
                    y: (p.y + dv as f32 * period_v) as f64,
                });
                orig_idx.push(i);
            }
        }
    }
    let result = delaunator::triangulate(&tiled);
    let eps = 1e-6f64;
    let (x_lo, x_hi) = (min_x as f64 - eps, min_x as f64 + period_u as f64 + eps);
    let (y_lo, y_hi) = (min_y as f64 - eps, min_y as f64 + period_v as f64 + eps);
    let mut out: Vec<(usize, usize, usize)> = Vec::new();
    for chunk in result.triangles.chunks(3) {
        let (a, b, c) = (chunk[0], chunk[1], chunk[2]);
        let (oa, ob, oc) = (orig_idx[a], orig_idx[b], orig_idx[c]);
        if oa == ob || ob == oc || oa == oc {
            continue;
        }
        let (pa, pb, pc) = (&tiled[a], &tiled[b], &tiled[c]);
        let cx = (pa.x + pb.x + pc.x) / 3.0;
        let cy = (pa.y + pb.y + pc.y) / 3.0;
        if !(cx >= x_lo && cx < x_hi && cy >= y_lo && cy < y_hi) {
            continue;
        }
        let area = ((pb.x - pa.x) * (pc.y - pa.y) - (pc.x - pa.x) * (pb.y - pa.y)).abs() * 0.5;
        if area < 1e-12 {
            continue;
        }
        out.push((oa, ob, oc));
    }
    let sorted = |t: &(usize, usize, usize)| {
        let mut v = [t.0, t.1, t.2];
        v.sort();
        v
    };
    out.sort_by_key(sorted);
    out.dedup_by(|a, b| sorted(a) == sorted(b));
    out
}

/// The open torus grid: `(res_u + 1) x (res_v + 1)` points, column by
/// column, and one quad per cell.
fn generate_unfolded_quad_mesh(
    major_r: f64,
    minor_r: f64,
    res_u: usize,
    res_v: usize,
) -> (Vec<Vec3>, Vec<Vec2>, Vec<(usize, usize, usize, usize)>) {
    let nv = res_v + 1;
    let mut positions = Vec::new();
    let mut uvs = Vec::new();
    for i in 0..=res_u {
        let u = 2.0 * PI * i as f64 / res_u as f64;
        for j in 0..=res_v {
            let v = 2.0 * PI * j as f64 / res_v as f64;
            positions.push(torus_position(u, v, major_r, minor_r));
            uvs.push(Vec2::new(u as f32, v as f32));
        }
    }
    let mut quads = Vec::new();
    for i in 0..res_u {
        for j in 0..res_v {
            quads.push((i * nv + j, (i + 1) * nv + j, (i + 1) * nv + j + 1, i * nv + j + 1));
        }
    }
    (positions, uvs, quads)
}

fn uv_2pi() -> UvRange {
    (0.0, 2.0 * PI, 0.0, 2.0 * PI)
}

/// Grid cut along the lines `u_vals` and `v_vals`.
fn grid_cut(mesh: &mut HalfEdgeMesh, u_vals: &[f64], v_vals: &[f64], range: UvRange, finalize: bool) {
    let intersect = |is_u: bool, k: usize, corners: &Vec<Corner>| {
        let vals = if is_u { u_vals } else { v_vals };
        vals.get(k).and_then(|&c| intersect_face_line(corners, is_u, c, range))
    };
    cut_mesh_by_grid(mesh, u_vals.len(), v_vals.len(), &intersect, finalize);
}

/// Knot cut along the `(1, k)` curves for `k` in `ks`.
fn knot_cut(mesh: &mut HalfEdgeMesh, ks: &[f64], range: UvRange) {
    let meets = |corners: &Vec<Corner>| knot_branches(corners, ks, range);
    let place = |m: &HalfEdgeMesh, f: FaceId, p: &Vec<HalfEdgeId>, pos: Vec3| place_boundary_point(m, f, p, pos);
    let order = |m: &HalfEdgeMesh, f: FaceId, p: &Vec<VertexId>, curve: usize| {
        order_along_branch(m, f, p, ks.get(curve).copied().unwrap_or(0.0), range)
    };
    let crossing = |m: &HalfEdgeMesh, a: VertexId, b: VertexId| find_chord_crossing(m, a, b, range);
    cut_mesh_by_knots(mesh, &meets, &place, &order, &crossing);
}

fn face_sizes(mesh: &HalfEdgeMesh) -> Vec<usize> {
    (0..mesh.faces.len())
        .filter(|&f| mesh.faces[f].valid)
        .map(|f| mesh.face_half_edges(FaceId(f)).len())
        .collect()
}


#[test]
fn test_grid_cut_keeps_quad_faces() {
    let (positions, uvs, quads) = generate_unfolded_quad_mesh(2.0, 0.6, 12, 10);
    let mut mesh = HalfEdgeMesh::from_quads(&positions, &uvs, &quads);
    let face_count_before = mesh.num_valid_faces();
    let vert_count_before = mesh.vertices.len();
    assert_eq!(face_count_before, 12 * 10);

    // Lines on grid lines: u = 2π·k/12 (k = 2, 5), v = 2π·3/10.
    let u_vals = vec![2.0 * PI * 2.0 / 12.0, 2.0 * PI * 5.0 / 12.0];
    let v_vals = vec![2.0 * PI * 3.0 / 10.0];
    grid_cut(&mut mesh, &u_vals, &v_vals, uv_2pi(), false);
    assert!(mesh.validate());
    assert_eq!(mesh.num_valid_faces(), face_count_before);
    assert_eq!(mesh.vertices.len(), vert_count_before);
    let non_quad = face_sizes(&mesh).iter().filter(|&&n| n != 4).count();
    assert_eq!(non_quad, 0);
}

#[test]
fn test_triangle_cut_keeps_all_triangles() {
    let (positions, uvs, triangles) = generate_delaunay_mesh(2.0, 0.6, 300, 42);
    let mut mesh = HalfEdgeMesh::from_triangles(&positions, &uvs, &triangles);
    assert!(face_sizes(&mesh).iter().all(|&n| n == 3));

    let u_vals = vec![0.9, 2.1, 3.6, 5.0];
    let v_vals = vec![1.3, 4.2];
    grid_cut(&mut mesh, &u_vals, &v_vals, uv_2pi(), true);
    assert!(mesh.validate());
    assert!(mesh.num_valid_faces() > triangles.len());
    for (fi, n) in face_sizes(&mesh).iter().enumerate() {
        assert_eq!(*n, 3, "valid face {} is not a triangle", fi);
    }
}

#[test]
fn test_no_face_straddles_cut_line() {
    let (positions, uvs, triangles) = generate_delaunay_mesh(2.0, 0.5, 400, 1);
    let mut mesh = HalfEdgeMesh::from_triangles(&positions, &uvs, &triangles);
    let two_pi = 2.0 * PI;
    let u_vals: Vec<f64> = (0..4).map(|i| two_pi / 4.0 * (i as f64 + 0.5)).collect();
    let v_vals: Vec<f64> = (0..6).map(|i| two_pi / 6.0 * (i as f64 + 0.5)).collect();
    grid_cut(&mut mesh, &u_vals, &v_vals, uv_2pi(), false);

    let mut straddles = 0;
    let eps = 1e-4;
    for fi in 0..mesh.faces.len() {
        if !mesh.faces[fi].valid {
            continue;
        }
        let hes = mesh.face_half_edges(FaceId(fi));
        if hes.len() < 3 {
            continue;
        }
        let coord = |he: &HalfEdgeId, is_u: bool| {
            let uv = mesh.vertices[mesh.half_edges[he.0].origin.0].uv;
            normalize_uv(if is_u { uv.x } else { uv.y } as f64, 0.0, two_pi)
        };
        for (is_u, vals) in [(true, &u_vals), (false, &v_vals)] {
            let xs: Vec<f64> = hes.iter().map(|he| coord(he, is_u)).collect();
            let x0 = xs[0];
            let wrapped: Vec<f64> = xs.iter().map(|&x| unwrap_angle(x, x0)).collect();
            let lo = wrapped.iter().cloned().fold(f64::MAX, f64::min);
            let hi = wrapped.iter().cloned().fold(f64::MIN, f64::max);
            for &c in vals.iter() {
                let cn = unwrap_angle(normalize_uv(c, 0.0, two_pi), x0);
                if lo < cn - eps && hi > cn + eps {
                    straddles += 1;
                }
            }
        }
    }
    assert_eq!(straddles, 0);
}

#[test]
fn test_knot_cut_only_affects_intersecting_faces() {
    let (positions, uvs, quads) = generate_unfolded_quad_mesh(2.0, 0.6, 24, 20);
    let mut mesh = HalfEdgeMesh::from_quads(&positions, &uvs, &quads);
    let faces_before = mesh.num_valid_faces();

    knot_cut(&mut mesh, &[2.0], uv_2pi());
    assert!(mesh.validate());

    let sizes = face_sizes(&mesh);
    let total = sizes.len();
    let non_quad = sizes.iter().filter(|&&n| n != 4).count();
    let quad = total - non_quad;
    assert!(total > faces_before);
    assert!(non_quad > 0);
    assert!(quad > total / 2);
}

#[test]
fn test_knot_patch_assignment_for_coloring() {
    let (positions, uvs, quads) = generate_unfolded_quad_mesh(2.0, 0.6, 24, 20);
    let mut mesh = HalfEdgeMesh::from_quads(&positions, &uvs, &quads);
    let range = uv_2pi();
    knot_cut(&mut mesh, &[2.0, 5.0], range);
    let (d, classes) = knot_classes(&mesh, 2.0, 5.0, range);
    assign_connected_components_knot(&mut mesh, d == 0, &classes);

    for f in mesh.faces.iter() {
        if f.valid {
            assert!(f.patch_index.is_some());
        }
    }
    let colors: Vec<usize> =
        mesh.faces.iter().filter(|f| f.valid).filter_map(|f| f.patch_index.map(|p| p.0)).collect();
    let max = *colors.iter().max().unwrap();
    for c in 0..=max {
        assert!(colors.contains(&c), "colour {} is missing", c);
    }
    let mut distinct = colors.clone();
    distinct.sort();
    distinct.dedup();
    assert_eq!(distinct.len(), 3);
}

#[test]
fn test_knot_cut_full_mesh() {
    let (positions, uvs, quads) = generate_unfolded_quad_mesh(2.0, 0.6, 24, 20);
    let mut mesh = HalfEdgeMesh::from_quads(&positions, &uvs, &quads);
    let range = uv_2pi();
    let initial_faces = mesh.num_valid_faces();
    knot_cut(&mut mesh, &[2.0], range);
    let cuts = mesh.num_valid_faces() - initial_faces;
    assert!(cuts >= 40, "k = 2 should give at least 40 new faces, got {}", cuts);
    assert!(mesh.validate());

    // A single (1, 2) knot does not separate the torus: one region.
    let (d, classes) = knot_classes(&mesh, 2.0, 2.0, range);
    assign_connected_components_knot(&mut mesh, d == 0, &classes);
    let mut patch_values: Vec<usize> =
        mesh.faces.iter().filter(|f| f.valid).filter_map(|f| f.patch_index.map(|p| p.0)).collect();
    patch_values.sort();
    patch_values.dedup();
    assert_eq!(patch_values.len(), 1);
}

#[test]
fn test_knot_cut_k3_full_mesh() {
    let (positions, uvs, quads) = generate_unfolded_quad_mesh(2.0, 0.6, 24, 20);
    let mut mesh = HalfEdgeMesh::from_quads(&positions, &uvs, &quads);
    let initial_faces = mesh.num_valid_faces();
    knot_cut(&mut mesh, &[3.0], uv_2pi());
    let cuts = mesh.num_valid_faces() - initial_faces;
    assert!(cuts >= 50, "k = 3 should give at least 50 new faces, got {}", cuts);
    assert!(mesh.validate());
}

#[test]
fn test_knot_cut_multiple_branches_coarse_grid() {
    let (positions, uvs, quads) = generate_unfolded_quad_mesh(2.0, 0.6, 8, 6);
    let mut mesh = HalfEdgeMesh::from_quads(&positions, &uvs, &quads);
    let initial_faces = mesh.num_valid_faces();
    knot_cut(&mut mesh, &[6.0], uv_2pi());
    let cuts = mesh.num_valid_faces() - initial_faces;
    assert!(mesh.validate());
    assert!(cuts >= 30, "k = 6 on a coarse grid must cut all branches, got {} new faces", cuts);
}

#[test]
fn test_knot_single_curve_one_region() {
    let range = uv_2pi();
    for &k in &[3.0f64, 6.0] {
        let (p, u, t) = generate_delaunay_mesh(2.0, 0.5, 600, 7);
        let mut m = HalfEdgeMesh::from_triangles(&p, &u, &t);
        knot_cut(&mut m, &[k], range);
        assert!(m.validate());
        let (d, classes) = knot_classes(&m, k, k, range);
        let n = assign_connected_components_knot(&mut m, d == 0, &classes);
        assert_eq!(n, 1, "a single (1, {}) knot gives one region", k);
    }
}

#[test]
fn test_delaunay_grid_cut_increases_faces() {
    let (positions, uvs, triangles) = generate_delaunay_mesh(2.0, 0.5, 400, 1);
    let mut mesh = HalfEdgeMesh::from_triangles(&positions, &uvs, &triangles);
    let before = mesh.num_valid_faces();
    grid_cut(&mut mesh, &[2.0], &[], uv_2pi(), true);
    let after = mesh.num_valid_faces();
    assert!(mesh.validate());
    assert!(after > before);

    grid_cut(&mut mesh, &[], &[2.0, 4.0], uv_2pi(), true);
    let after2 = mesh.num_valid_faces();
    assert!(after2 > after);
    assert!(mesh.validate());
}

#[test]
fn test_delaunay_grid_cut_ui_positions() {
    let (positions, uvs, triangles) = generate_delaunay_mesh(2.0, 0.5, 400, 1);
    let mut mesh = HalfEdgeMesh::from_triangles(&positions, &uvs, &triangles);
    let two_pi = 2.0 * PI;
    let u_vals: Vec<f64> = (0..4).map(|i| two_pi / 4.0 * (i as f64 + 0.5)).collect();
    let v_vals: Vec<f64> = (0..6).map(|i| two_pi / 6.0 * (i as f64 + 0.5)).collect();
    let boundary = |m: &HalfEdgeMesh| m.half_edges.iter().filter(|he| he.twin.0 == usize::MAX).count();
    let boundary_before = boundary(&mesh);
    grid_cut(&mut mesh, &u_vals, &v_vals, uv_2pi(), true);
    let boundary_after = boundary(&mesh);
    assert!(mesh.validate());
    assert!(boundary_after > boundary_before);
}

#[test]
fn test_knot_seam_welding_three_regions() {
    let range = uv_2pi();
    let mut failures = 0u32;
    for &npts in &[200usize, 400, 800, 1600] {
        for seed in 1..=12u64 {
            let (p, u, t) = generate_delaunay_mesh(2.0, 0.5, npts, seed);
            let mut m = HalfEdgeMesh::from_triangles(&p, &u, &t);
            knot_cut(&mut m, &[3.0, 6.0], range);
            let (d, classes) = knot_classes(&m, 3.0, 6.0, range);
            let n = assign_connected_components_knot(&mut m, d == 0, &classes);
            if !m.validate() || n != 3 {
                failures += 1;
            }
        }
    }
    assert_eq!(failures, 0);
}
