//! Boundary loops of a mesh whose boundary is a union of cycles: when every
//! boundary half-edge has a boundary successor (see `boundary_successor`)
//! and no two share one, the successor permutes the boundary half-edges,
//! and the boundary loops that `compute_stats` counts are its cycles.
use vstd::prelude::*;
use crate::mesh::half_edge::{lemma_distinct_bounded, HalfEdgeMesh};
use crate::mesh::stats::{boundary_loop_count, boundary_successor, boundary_walk, loops_from, on_boundary};

verus! {

/// Every boundary half-edge has a boundary successor, and no two boundary
/// half-edges have the same one.
pub open spec fn boundary_permutes(m: HalfEdgeMesh) -> bool {
    &&& forall|h: int|
        0 <= h < m.nh() && on_boundary(m, h) ==> {
            let s = #[trigger] boundary_successor(m, h);
            &&& s is Some
            &&& 0 <= s->0 < m.nh()
            &&& on_boundary(m, s->0)
        }
    &&& forall|h1: int, h2: int|
        0 <= h1 < m.nh() && 0 <= h2 < m.nh() && on_boundary(m, h1) && on_boundary(m, h2) && h1 != h2
            ==> #[trigger] boundary_successor(m, h1) != #[trigger] boundary_successor(m, h2)
}

/// The boundary successor of `h`.
pub open spec fn succ(m: HalfEdgeMesh, h: int) -> int {
    boundary_successor(m, h)->0
}

/// `h` after `k` steps along boundary successors.
pub open spec fn iter(m: HalfEdgeMesh, h: int, k: nat) -> int
    decreases k,
{
    if k == 0 {
        h
    } else {
        succ(m, iter(m, h, (k - 1) as nat))
    }
}

/// `x` is on the boundary cycle of `h`.
pub open spec fn in_orbit(m: HalfEdgeMesh, h: int, x: int) -> bool {
    exists|k: nat| #[trigger] iter(m, h, k) == x
}

/// `h` is the boundary half-edge of least index on its cycle.
pub open spec fn is_leader(m: HalfEdgeMesh, h: int) -> bool {
    &&& 0 <= h < m.nh()
    &&& on_boundary(m, h)
    &&& forall|k: nat| #[trigger] iter(m, h, k) >= h
}

/// Cycle leaders among the half-edges from `i` on.
pub open spec fn leaders_from(m: HalfEdgeMesh, i: int) -> nat
    decreases m.nh() - i,
{
    if i >= m.nh() || i < 0 {
        0
    } else {
        (if is_leader(m, i) {
            1nat
        } else {
            0nat
        }) + leaders_from(m, i + 1)
    }
}

proof fn lemma_iter_boundary(m: HalfEdgeMesh, h: int, k: nat)
    requires
        boundary_permutes(m),
        0 <= h < m.nh(),
        on_boundary(m, h),
    ensures
        0 <= iter(m, h, k) < m.nh(),
        on_boundary(m, iter(m, h, k)),
    decreases k,
{
    if k > 0 {
        lemma_iter_boundary(m, h, (k - 1) as nat);
        let _ = boundary_successor(m, iter(m, h, (k - 1) as nat));
    }
}

proof fn lemma_iter_add(m: HalfEdgeMesh, h: int, a: nat, b: nat)
    ensures
        iter(m, h, a + b) == iter(m, iter(m, h, a), b),
    decreases b,
{
    if b > 0 {
        lemma_iter_add(m, h, a, (b - 1) as nat);
        assert((a + b - 1) as nat == a + (b - 1) as nat);
    }
}

/// Equal iterates stay equal when both step back.
proof fn lemma_iter_descend(m: HalfEdgeMesh, h: int, a: nat, b: nat)
    requires
        boundary_permutes(m),
        0 <= h < m.nh(),
        on_boundary(m, h),
        a <= b,
        iter(m, h, a) == iter(m, h, b),
    ensures
        iter(m, h, 0) == iter(m, h, (b - a) as nat),
    decreases a,
{
    if a > 0 {
        let x = iter(m, h, (a - 1) as nat);
        let y = iter(m, h, (b - 1) as nat);
        lemma_iter_boundary(m, h, (a - 1) as nat);
        lemma_iter_boundary(m, h, (b - 1) as nat);
        if x != y {
            assert(boundary_successor(m, x) != boundary_successor(m, y));
            assert(false);
        }
        lemma_iter_descend(m, h, (a - 1) as nat, (b - 1) as nat);
        assert((b - 1 - (a - 1)) as nat == (b - a) as nat);
    }
}

/// Some step count `p` in `[1, nh]` brings `h` back to itself.
proof fn lemma_returns(m: HalfEdgeMesh, h: int) -> (p: nat)
    requires
        boundary_permutes(m),
        0 <= h < m.nh(),
        on_boundary(m, h),
    ensures
        1 <= p <= m.nh(),
        iter(m, h, p) == h,
{
    let n = m.nh();
    let s = Seq::new((n + 1) as nat, |k: int| iter(m, h, k as nat));
    assert forall|k: int| 0 <= k < s.len() implies 0 <= #[trigger] s[k] < n by {
        lemma_iter_boundary(m, h, k as nat);
    }
    if s.no_duplicates() {
        lemma_distinct_bounded(s, n);
        assert(false);
    }
    let (a, b) = choose|a: int, b: int| 0 <= a < s.len() && 0 <= b < s.len() && a != b && s[a] == s[b];
    let (lo, hi) = if a < b {
        (a, b)
    } else {
        (b, a)
    };
    assert(s[lo] == s[hi]);
    lemma_iter_descend(m, h, lo as nat, hi as nat);
    (hi - lo) as nat
}

/// The least positive step count bringing `h` back to itself.
proof fn lemma_least_return(m: HalfEdgeMesh, h: int, p: nat) -> (q: nat)
    requires
        1 <= p,
        iter(m, h, p) == h,
    ensures
        1 <= q <= p,
        iter(m, h, q) == h,
        forall|r: nat| 1 <= r < q ==> #[trigger] iter(m, h, r) != h,
    decreases p,
{
    if exists|r: nat| 1 <= r < p && #[trigger] iter(m, h, r) == h {
        let r = choose|r: nat| 1 <= r < p && #[trigger] iter(m, h, r) == h;
        lemma_least_return(m, h, r)
    } else {
        p
    }
}

/// The cycle of `h` has a period `p`: `h` comes back after `p` steps and
/// meets no iterate twice before.
proof fn lemma_period(m: HalfEdgeMesh, h: int) -> (p: nat)
    requires
        boundary_permutes(m),
        0 <= h < m.nh(),
        on_boundary(m, h),
    ensures
        1 <= p <= m.nh(),
        iter(m, h, p) == h,
        forall|a: nat, b: nat| a < b < p ==> #[trigger] iter(m, h, a) != #[trigger] iter(m, h, b),
{
    let p0 = lemma_returns(m, h);
    let p = lemma_least_return(m, h, p0);
    assert forall|a: nat, b: nat| a < b < p implies #[trigger] iter(m, h, a) != #[trigger] iter(m, h, b) by {
        if iter(m, h, a) == iter(m, h, b) {
            lemma_iter_descend(m, h, a, b);
            assert(iter(m, h, (b - a) as nat) != h);
        }
    }
    p
}

/// Steps along the cycle can be counted modulo its period.
proof fn lemma_iter_mod(m: HalfEdgeMesh, h: int, p: nat, k: nat)
    requires
        1 <= p,
        iter(m, h, p) == h,
    ensures
        iter(m, h, k) == iter(m, h, k % p),
    decreases k,
{
    if k >= p {
        lemma_iter_add(m, h, p, (k - p) as nat);
        assert(p + (k - p) as nat == k);
        lemma_iter_mod(m, h, p, (k - p) as nat);
        vstd::arithmetic::div_mod::lemma_mod_sub_multiples_vanish(k as int, p as int);
    } else {
        vstd::arithmetic::div_mod::lemma_small_mod(k, p);
    }
}

/// Each member of the cycle of `h` leads back to `h`.
proof fn lemma_orbit_symmetric(m: HalfEdgeMesh, h: int, x: int)
    requires
        boundary_permutes(m),
        0 <= h < m.nh(),
        on_boundary(m, h),
        in_orbit(m, h, x),
    ensures
        in_orbit(m, x, h),
{
    let p = lemma_period(m, h);
    let a = choose|a: nat| #[trigger] iter(m, h, a) == x;
    lemma_iter_mod(m, h, p, a);
    let a2 = a % p;
    lemma_iter_add(m, h, a2, (p - a2) as nat);
    assert(a2 + (p - a2) as nat == p);
    assert(iter(m, x, (p - a2) as nat) == h);
}

/// The cycle of a member of the cycle of `h` is contained in it.
proof fn lemma_orbit_trans(m: HalfEdgeMesh, h: int, x: int, y: int)
    requires
        in_orbit(m, h, x),
        in_orbit(m, x, y),
    ensures
        in_orbit(m, h, y),
{
    let a = choose|a: nat| #[trigger] iter(m, h, a) == x;
    let b = choose|b: nat| #[trigger] iter(m, x, b) == y;
    lemma_iter_add(m, h, a, b);
    assert(iter(m, h, a + b) == y);
}

/// The first `k` members of the cycle of `i`.
pub open spec fn orbit_upto(m: HalfEdgeMesh, i: int, k: nat) -> Set<int>
    decreases k,
{
    if k == 0 {
        Set::empty()
    } else {
        orbit_upto(m, i, (k - 1) as nat).insert(iter(m, i, (k - 1) as nat))
    }
}

proof fn lemma_orbit_upto(m: HalfEdgeMesh, i: int, k: nat)
    ensures
        orbit_upto(m, i, k).finite(),
        forall|x: int| #[trigger] orbit_upto(m, i, k).contains(x) <==> exists|j: nat| j < k && #[trigger] iter(m, i, j) == x,
    decreases k,
{
    if k > 0 {
        lemma_orbit_upto(m, i, (k - 1) as nat);
        assert forall|x: int| #[trigger] orbit_upto(m, i, k).contains(x) implies exists|j: nat| j < k && #[trigger] iter(m, i, j) == x by {
            if x != iter(m, i, (k - 1) as nat) {
                let j = choose|j: nat| j < (k - 1) as nat && #[trigger] iter(m, i, j) == x;
            }
        }
        assert forall|x: int| (exists|j: nat| j < k && #[trigger] iter(m, i, j) == x) implies #[trigger] orbit_upto(m, i, k).contains(x) by {
            let j = choose|j: nat| j < k && #[trigger] iter(m, i, j) == x;
            if j < k - 1 {
                assert(orbit_upto(m, i, (k - 1) as nat).contains(x));
            }
        }
    }
}

/// Walking the loop of `i` from its `k`-th member, with the earlier members
/// marked on top of `seen0` (which holds none of the cycle), marks the
/// whole cycle.
proof fn lemma_walk_cycle(m: HalfEdgeMesh, i: int, p: nat, seen0: Set<int>, k: nat)
    requires
        boundary_permutes(m),
        0 <= i < m.nh(),
        on_boundary(m, i),
        1 <= p,
        iter(m, i, p) == i,
        forall|a: nat, b: nat| a < b < p ==> #[trigger] iter(m, i, a) != #[trigger] iter(m, i, b),
        seen0.finite(),
        seen0.subset_of(vstd::set_lib::set_int_range(0, m.nh())),
        forall|j: nat| j < p ==> !seen0.contains(#[trigger] iter(m, i, j)),
        k < p,
    ensures
        boundary_walk(m, i, iter(m, i, k), seen0 + orbit_upto(m, i, k)) == seen0 + orbit_upto(m, i, p),
    decreases p - k,
{
    let cur = iter(m, i, k);
    let seen = seen0 + orbit_upto(m, i, k);
    lemma_orbit_upto(m, i, k);
    lemma_orbit_upto(m, i, k + 1);
    lemma_orbit_upto(m, i, p);
    lemma_iter_boundary(m, i, k);
    assert(seen.finite());
    assert(!seen.contains(cur)) by {
        assert(!seen0.contains(iter(m, i, k)));
        if orbit_upto(m, i, k).contains(cur) {
            let j = choose|j: nat| j < k && #[trigger] iter(m, i, j) == cur;
            assert(iter(m, i, j) != iter(m, i, k));
        }
    }
    assert(seen.subset_of(vstd::set_lib::set_int_range(0, m.nh()))) by {
        assert forall|x: int| seen.contains(x) implies vstd::set_lib::set_int_range(0, m.nh()).contains(x) by {
            if orbit_upto(m, i, k).contains(x) {
                let j = choose|j: nat| j < k && #[trigger] iter(m, i, j) == x;
                lemma_iter_boundary(m, i, j);
            }
        }
    }
    let seen2 = seen.insert(cur);
    assert(seen2 =~= seen0 + orbit_upto(m, i, k + 1));
    let _ = boundary_successor(m, cur);
    assert(boundary_successor(m, cur) == Some(iter(m, i, k + 1)));
    if k + 1 == p {
        assert(iter(m, i, k + 1) == i);
    } else {
        let n = iter(m, i, k + 1);
        assert(n != i) by {
            assert(iter(m, i, 0) != iter(m, i, k + 1));
        }
        assert(!seen2.contains(n)) by {
            assert(!seen0.contains(iter(m, i, k + 1)));
            if orbit_upto(m, i, k + 1).contains(n) {
                let j = choose|j: nat| j < k + 1 && #[trigger] iter(m, i, j) == n;
                assert(iter(m, i, j) != iter(m, i, (k + 1) as nat));
            }
        }
        lemma_walk_cycle(m, i, p, seen0, k + 1);
    }
}

/// `x` lies on the cycle of a boundary half-edge below `i`.
pub open spec fn covered_by(m: HalfEdgeMesh, i: int, x: int) -> bool {
    exists|h: int| 0 <= h < i && on_boundary(m, h) && #[trigger] in_orbit(m, h, x)
}

/// The members of the cycles of the boundary half-edges below `i`.
pub open spec fn covered(m: HalfEdgeMesh, i: int) -> Set<int> {
    Set::new(|x: int| covered_by(m, i, x))
}

proof fn lemma_covered_in_range(m: HalfEdgeMesh, i: int)
    requires
        boundary_permutes(m),
        0 <= i <= m.nh(),
    ensures
        covered(m, i).subset_of(vstd::set_lib::set_int_range(0, m.nh())),
        covered(m, i).finite(),
{
    assert forall|x: int| covered(m, i).contains(x) implies vstd::set_lib::set_int_range(0, m.nh()).contains(x) by {
        let h = choose|h: int| 0 <= h < i && on_boundary(m, h) && #[trigger] in_orbit(m, h, x);
        let k = choose|k: nat| #[trigger] iter(m, h, k) == x;
        lemma_iter_boundary(m, h, k);
    }
    vstd::set_lib::lemma_int_range(0, m.nh());
    vstd::set_lib::lemma_len_subset(covered(m, i), vstd::set_lib::set_int_range(0, m.nh()));
}

/// Counting loops from `i` on, with the cycles of the boundary half-edges
/// below `i` marked, counts the cycle leaders from `i` on.
proof fn lemma_count_from(m: HalfEdgeMesh, i: int)
    requires
        boundary_permutes(m),
        0 <= i <= m.nh(),
    ensures
        loops_from(m, i, covered(m, i)) == leaders_from(m, i),
    decreases m.nh() - i,
{
    if i == m.nh() {
        return;
    }
    let c = covered(m, i);
    lemma_count_from(m, i + 1);
    if !on_boundary(m, i) {
        assert(covered(m, i + 1) =~= c) by {
            assert forall|x: int| covered_by(m, i + 1, x) implies covered_by(m, i, x) by {
                let h = choose|h: int| 0 <= h < i + 1 && on_boundary(m, h) && #[trigger] in_orbit(m, h, x);
                assert(h != i);
            }
        }
        assert(!is_leader(m, i));
    } else if c.contains(i) {
        let h = choose|h: int| 0 <= h < i && on_boundary(m, h) && #[trigger] in_orbit(m, h, i);
        assert(covered(m, i + 1) =~= c) by {
            assert forall|x: int| covered_by(m, i + 1, x) implies covered_by(m, i, x) by {
                let h2 = choose|h2: int| 0 <= h2 < i + 1 && on_boundary(m, h2) && #[trigger] in_orbit(m, h2, x);
                if h2 == i {
                    lemma_orbit_trans(m, h, i, x);
                }
            }
        }
        lemma_orbit_symmetric(m, h, i);
        let k = choose|k: nat| #[trigger] iter(m, i, k) == h;
        assert(iter(m, i, k) < i);
        assert(!is_leader(m, i));
    } else {
        let p = lemma_period(m, i);
        lemma_covered_in_range(m, i);
        assert forall|j: nat| j < p implies !c.contains(#[trigger] iter(m, i, j)) by {
            let y = iter(m, i, j);
            if c.contains(y) {
                let h = choose|h: int| 0 <= h < i && on_boundary(m, h) && #[trigger] in_orbit(m, h, y);
                assert(in_orbit(m, i, y));
                lemma_orbit_symmetric(m, i, y);
                lemma_orbit_trans(m, h, y, i);
                assert(covered_by(m, i, i));
            }
        }
        lemma_walk_cycle(m, i, p, c, 0);
        lemma_orbit_upto(m, i, p);
        assert(orbit_upto(m, i, 0) =~= Set::<int>::empty());
        assert(c + orbit_upto(m, i, 0) =~= c);
        assert(boundary_walk(m, i, i, c) == c + orbit_upto(m, i, p));
        assert(covered(m, i + 1) =~= c + orbit_upto(m, i, p)) by {
            assert forall|x: int| covered_by(m, i + 1, x) implies (c + orbit_upto(m, i, p)).contains(x) by {
                let h = choose|h: int| 0 <= h < i + 1 && on_boundary(m, h) && #[trigger] in_orbit(m, h, x);
                if h == i {
                    let k = choose|k: nat| #[trigger] iter(m, i, k) == x;
                    lemma_iter_mod(m, i, p, k);
                    vstd::arithmetic::div_mod::lemma_mod_bound(k as int, p as int);
                    assert(iter(m, i, (k % p) as nat) == x);
                } else {
                    assert(covered_by(m, i, x));
                }
            }
            assert forall|x: int| (c + orbit_upto(m, i, p)).contains(x) implies covered_by(m, i + 1, x) by {
                if orbit_upto(m, i, p).contains(x) {
                    let j = choose|j: nat| j < p && #[trigger] iter(m, i, j) == x;
                    assert(in_orbit(m, i, x));
                } else {
                    let h = choose|h: int| 0 <= h < i && on_boundary(m, h) && #[trigger] in_orbit(m, h, x);
                }
            }
        }
        assert(is_leader(m, i)) by {
            assert forall|k: nat| #[trigger] iter(m, i, k) >= i by {
                let y = iter(m, i, k);
                if y < i {
                    lemma_iter_boundary(m, i, k);
                    assert(in_orbit(m, i, y));
                    lemma_orbit_symmetric(m, i, y);
                    assert(covered_by(m, i, i));
                }
            }
        }
    }
}

/// On a mesh whose boundary successor permutes the boundary half-edges,
/// the boundary loop count that `compute_stats` reports is the number of
/// cycles of the permutation (counted by their least members).
pub proof fn lemma_boundary_loops_are_cycles(m: HalfEdgeMesh)
    requires
        boundary_permutes(m),
    ensures
        boundary_loop_count(m) == leaders_from(m, 0),
{
    lemma_count_from(m, 0);
    assert(covered(m, 0) =~= Set::<int>::empty());
}

} // verus!
