//! The text side of reading Wavefront OBJ files: telling what a line holds
//! (`v`, `vt`, `f` or nothing to read), parsing a face corner (`v`, `v/vt`,
//! `v/vt/vn`, `v//vn`) and turning the faces into a vertex list without
//! repeats and a fan of triangles per face.
use vstd::prelude::*;
use std::collections::HashMap;

verus! {

/// A face corner: 0-based position index and optional 0-based texture index.
#[derive(Debug, Clone, Copy, PartialEq, Eq, Structural)]
pub struct FaceVert {
    pub pos: usize,
    pub uv: Option<usize>,
}

pub open spec fn is_digit(c: char) -> bool {
    '0' <= c && c <= '9'
}

/// Value of a string of decimal digits.
pub open spec fn digits_value(d: Seq<char>) -> nat
    decreases d.len(),
{
    if d.len() == 0 {
        0
    } else {
        digits_value(d.drop_last()) * 10 + ((d.last() as int) - ('0' as int)) as nat
    }
}

/// `seg` without a leading `+`, if it has one.
pub open spec fn strip_plus(seg: Seq<char>) -> Seq<char> {
    if seg.len() > 0 && seg[0] == '+' {
        seg.subrange(1, seg.len() as int)
    } else {
        seg
    }
}

/// Every character of `d` is a decimal digit.
pub open spec fn all_digits(d: Seq<char>) -> bool {
    forall|i: int| 0 <= i < d.len() ==> is_digit(#[trigger] d[i])
}

/// What parsing `seg` as a `usize` gives: an optional `+` followed by at
/// least one decimal digit, with a value that fits.
pub open spec fn parse_usize(seg: Seq<char>) -> Option<usize> {
    if strip_plus(seg).len() > 0 && all_digits(strip_plus(seg)) && digits_value(strip_plus(seg)) <= usize::MAX {
        Some(digits_value(strip_plus(seg)) as usize)
    } else {
        None
    }
}

/// Position of the first `/` at or after `from`, or the length of `s`.
pub open spec fn next_slash(s: Seq<char>, from: int) -> int
    decreases s.len() - from,
{
    if from >= s.len() {
        s.len() as int
    } else if s[from] == '/' {
        from
    } else {
        next_slash(s, from + 1)
    }
}

/// What `parse_face_vert` gives for `s`: the text before the first `/`
/// is a 1-based position index; the text between the first and a second
/// `/` (or the end), when there is a first `/` and the text is not empty,
/// is a 1-based texture index, where 0 stands for none. Text after a
/// second `/` is ignored.
pub open spec fn face_vert_spec(s: Seq<char>) -> Option<FaceVert> {
    let a = next_slash(s, 0);
    match parse_usize(s.subrange(0, a)) {
        None => None,
        Some(p) => if p == 0 {
            None
        } else if a < s.len() && next_slash(s, a + 1) > a + 1 {
            match parse_usize(s.subrange(a + 1, next_slash(s, a + 1))) {
                None => None,
                Some(t) => Some(FaceVert { pos: (p - 1) as usize, uv: if t == 0 { None } else { Some((t - 1) as usize) } }),
            }
        } else {
            Some(FaceVert { pos: (p - 1) as usize, uv: None })
        },
    }
}

proof fn lemma_next_slash(s: Seq<char>, from: int)
    requires
        0 <= from <= s.len(),
    ensures
        from <= next_slash(s, from) <= s.len(),
        next_slash(s, from) < s.len() ==> s[next_slash(s, from)] == '/',
        forall|i: int| from <= i < next_slash(s, from) ==> s[i] != '/',
    decreases s.len() - from,
{
    if from < s.len() && s[from] != '/' {
        lemma_next_slash(s, from + 1);
    }
}

proof fn lemma_digits_grow(d: Seq<char>, k: int)
    requires
        0 <= k <= d.len(),
        forall|i: int| 0 <= i < d.len() ==> is_digit(#[trigger] d[i]),
    ensures
        digits_value(d.subrange(0, k)) <= digits_value(d),
    decreases d.len() - k,
{
    if k < d.len() {
        lemma_digits_grow(d, k + 1);
        let p = d.subrange(0, k + 1);
        assert(p.drop_last() =~= d.subrange(0, k));
        assert(is_digit(p.last()));
    } else {
        assert(d.subrange(0, k) =~= d);
    }
}

/// Parses the characters of `s` from `a` up to `b` as a `usize`.
fn parse_usize_range(s: &str, a: usize, b: usize) -> (r: Option<usize>)
    requires
        a <= b <= s@.len(),
    ensures
        r == parse_usize(s@.subrange(a as int, b as int)),
{
    let ghost seg = s@.subrange(a as int, b as int);
    let mut i = a;
    if i < b && s.get_char(i) == '+' {
        i = i + 1;
    }
    let ghost d = strip_plus(seg);
    proof {
        assert(d =~= s@.subrange(i as int, b as int));
    }
    if i == b {
        return None;
    }
    let start = i;
    let mut v: usize = 0;
    while i < b
        invariant
            a <= start <= i <= b <= s@.len(),
            seg == s@.subrange(a as int, b as int),
            d == strip_plus(seg),
            d.len() > 0,
            d =~= s@.subrange(start as int, b as int),
            forall|j: int| 0 <= j < i - start ==> is_digit(#[trigger] d[j]),
            v == digits_value(d.subrange(0, i - start)),
        decreases b - i,
    {
        let c = s.get_char(i);
        if !('0' <= c && c <= '9') {
            proof {
                assert(!is_digit(d[i - start]));
                assert(!all_digits(d));
                assert(parse_usize(seg) is None);
            }
            return None;
        }
        let dv = ((c as u32) - ('0' as u32)) as usize;
        proof {
            let p = d.subrange(0, i - start + 1);
            assert(p.drop_last() =~= d.subrange(0, i - start));
            assert(p.last() == c);
        }
        match v.checked_mul(10) {
            None => {
                proof {
                    if all_digits(d) {
                        lemma_digits_grow(d, i - start + 1);
                        let p = d.subrange(0, i - start + 1);
                        assert(digits_value(p) == v * 10 + dv);
                        assert(v * 10 > usize::MAX);
                    }
                    assert(parse_usize(seg) is None);
                }
                return None;
            },
            Some(v10) => {
                match v10.checked_add(dv) {
                    None => {
                        proof {
                            if all_digits(d) {
                                lemma_digits_grow(d, i - start + 1);
                                let p = d.subrange(0, i - start + 1);
                                assert(digits_value(p) == v * 10 + dv);
                            }
                            assert(parse_usize(seg) is None);
                        }
                        return None;
                    },
                    Some(nv) => {
                        v = nv;
                    },
                }
            },
        }
        i = i + 1;
    }
    proof {
        assert(d.subrange(0, d.len() as int) =~= d);
    }
    Some(v)
}

/// Parses a face corner of an OBJ `f` line (see `face_vert_spec`).
pub fn parse_face_vert(s: &str) -> (r: Option<FaceVert>)
    ensures
        r == face_vert_spec(s@),
{
    let n = s.unicode_len();
    let mut a: usize = 0;
    while a < n && s.get_char(a) != '/'
        invariant
            a <= n,
            n == s@.len(),
            next_slash(s@, 0) == next_slash(s@, a as int),
        decreases n - a,
    {
        a = a + 1;
    }
    proof {
        assert(next_slash(s@, a as int) == a);
    }
    let p = match parse_usize_range(s, 0, a) {
        None => {
            return None;
        },
        Some(p) => p,
    };
    if p == 0 {
        return None;
    }
    let pos = p - 1;
    if a < n {
        let mut b: usize = a + 1;
        while b < n && s.get_char(b) != '/'
            invariant
                a + 1 <= b <= n,
                n == s@.len(),
                next_slash(s@, a + 1) == next_slash(s@, b as int),
            decreases n - b,
        {
            b = b + 1;
        }
        proof {
            assert(next_slash(s@, b as int) == b);
        }
        if b > a + 1 {
            let t = match parse_usize_range(s, a + 1, b) {
                None => {
                    return None;
                },
                Some(t) => t,
            };
            let uv = if t == 0 {
                None
            } else {
                Some(t - 1)
            };
            return Some(FaceVert { pos, uv });
        }
    }
    Some(FaceVert { pos, uv: None })
}

/// The faces as sequences of corners.
pub open spec fn face_seqs(faces: Seq<Vec<FaceVert>>) -> Seq<Seq<FaceVert>> {
    faces.map_values(|f: Vec<FaceVert>| f@)
}

/// All corners of the faces, face after face.
pub open spec fn all_corners(faces: Seq<Seq<FaceVert>>) -> Seq<FaceVert>
    decreases faces.len(),
{
    if faces.len() == 0 {
        Seq::empty()
    } else {
        all_corners(faces.drop_last()) + faces.last()
    }
}

/// The distinct elements of `cs`, in order of first appearance.
pub open spec fn dedup(cs: Seq<FaceVert>) -> Seq<FaceVert>
    decreases cs.len(),
{
    if cs.len() == 0 {
        Seq::empty()
    } else {
        let d = dedup(cs.drop_last());
        if d.contains(cs.last()) {
            d
        } else {
            d.push(cs.last())
        }
    }
}

/// Position of `k` in `keys`.
pub open spec fn index_in(keys: Seq<FaceVert>, k: FaceVert) -> int {
    choose|i: int| 0 <= i < keys.len() && keys[i] == k
}

/// The fan of triangles of a face, as positions in `keys`: corner 0 with
/// each pair of consecutive later corners.
pub open spec fn fan_of(face: Seq<FaceVert>, keys: Seq<FaceVert>) -> Seq<(usize, usize, usize)> {
    Seq::new(
        (face.len() - 2) as nat,
        |i: int| (index_in(keys, face[0]) as usize, index_in(keys, face[i + 1]) as usize, index_in(keys, face[i + 2]) as usize),
    )
}

/// The fans of all faces, face after face.
pub open spec fn all_fans(faces: Seq<Seq<FaceVert>>, keys: Seq<FaceVert>) -> Seq<(usize, usize, usize)>
    decreases faces.len(),
{
    if faces.len() == 0 {
        Seq::empty()
    } else {
        all_fans(faces.drop_last(), keys) + fan_of(faces.last(), keys)
    }
}

proof fn lemma_dedup(cs: Seq<FaceVert>)
    ensures
        dedup(cs).no_duplicates(),
        forall|x: FaceVert| #[trigger] dedup(cs).contains(x) <==> cs.contains(x),
        dedup(cs).len() <= cs.len(),
    decreases cs.len(),
{
    if cs.len() > 0 {
        lemma_dedup(cs.drop_last());
        let d = dedup(cs.drop_last());
        assert forall|x: FaceVert| #[trigger] dedup(cs).contains(x) <==> cs.contains(x) by {
            if cs.contains(x) {
                let i = choose|i: int| 0 <= i < cs.len() && cs[i] == x;
                if i < cs.len() - 1 {
                    assert(cs.drop_last()[i] == x);
                }
            }
            if cs.drop_last().contains(x) {
                let i = choose|i: int| 0 <= i < cs.drop_last().len() && cs.drop_last()[i] == x;
                assert(cs[i] == x);
            }
            if !d.contains(cs.last()) {
                assert(dedup(cs) == d.push(cs.last()));
                if d.push(cs.last()).contains(x) {
                    let i = choose|i: int| 0 <= i < d.push(cs.last()).len() && d.push(cs.last())[i] == x;
                    if i < d.len() {
                        assert(d[i] == x);
                    }
                }
                if d.contains(x) {
                    let i = choose|i: int| 0 <= i < d.len() && d[i] == x;
                    assert(d.push(cs.last())[i] == x);
                }
                assert(d.push(cs.last())[d.len() as int] == cs.last());
            }
        }
        if !d.contains(cs.last()) {
            let e = d.push(cs.last());
            assert forall|i: int, j: int| 0 <= i < e.len() && 0 <= j < e.len() && i != j implies e[i] != e[j] by {
                if i < d.len() && j < d.len() {
                } else if i == d.len() {
                    assert(e[j] == d[j]);
                } else {
                    assert(e[i] == d[i]);
                }
            }
        }
    }
}

/// Lookup structure over the keys: `map` sends a position index to its
/// bucket, and bucket entries `(uv, i)` name the keys at `i`.
pub open spec fn lookup_ok(keys: Seq<FaceVert>, map: Map<usize, usize>, buckets: Seq<Vec<(Option<usize>, usize)>>) -> bool {
    &&& buckets.len() <= keys.len()
    &&& forall|p: usize| #[trigger] map.contains_key(p) ==> map[p] < buckets.len()
    &&& forall|p1: usize, p2: usize| #[trigger] map.contains_key(p1) && #[trigger] map.contains_key(p2) && p1 != p2 ==> map[p1] != map[p2]
    &&& forall|i: int|
        0 <= i < keys.len() ==> map.contains_key((#[trigger] keys[i]).pos) && buckets[map[keys[i].pos] as int]@.contains(
            (keys[i].uv, i as usize),
        )
    &&& forall|b: int, e: int|
        0 <= b < buckets.len() && 0 <= e < buckets[b]@.len() ==> {
            let ent = #[trigger] buckets[b]@[e];
            &&& ent.1 < keys.len()
            &&& keys[ent.1 as int].uv == ent.0
            &&& map.contains_key(keys[ent.1 as int].pos)
            &&& map[keys[ent.1 as int].pos] == b
        }
}

/// Finds `fv` among the keys, adding it at the end when it is new; returns
/// its position.
fn find_or_add(
    keys: &mut Vec<FaceVert>,
    map: &mut HashMap<usize, usize>,
    buckets: &mut Vec<Vec<(Option<usize>, usize)>>,
    fv: FaceVert,
) -> (r: usize)
    requires
        lookup_ok(old(keys)@, old(map)@, old(buckets)@),
        old(keys)@.no_duplicates(),
        old(keys)@.len() + 1 < usize::MAX,
    ensures
        final(keys)@ == if old(keys)@.contains(fv) {
            old(keys)@
        } else {
            old(keys)@.push(fv)
        },
        final(keys)@.no_duplicates(),
        lookup_ok(final(keys)@, final(map)@, final(buckets)@),
        r < final(keys)@.len(),
        final(keys)@[r as int] == fv,
{
    broadcast use vstd::std_specs::hash::group_hash_axioms;
    match map.get(&fv.pos) {
        Some(bref) => {
            let b = *bref;
            let blen = buckets[b].len();
            let mut e: usize = 0;
            while e < blen
                invariant
                    lookup_ok(keys@, map@, buckets@),
                    keys@ == old(keys)@,
                    keys@.no_duplicates(),
                    map@.contains_key(fv.pos),
                    map@[fv.pos] == b,
                    b < buckets@.len(),
                    blen == buckets@[b as int]@.len(),
                    e <= blen,
                    forall|q: int| 0 <= q < e ==> (#[trigger] buckets@[b as int]@[q]).0 != fv.uv,
                decreases blen - e,
            {
                let ent = buckets[b][e];
                if ent.0 == fv.uv {
                    proof {
                        let _ = buckets@[b as int]@[e as int];
                        let k = keys@[ent.1 as int];
                        assert(map@[k.pos] == map@[fv.pos]);
                        assert(k.pos == fv.pos);
                        assert(k == fv);
                        assert(keys@.contains(fv));
                    }
                    return ent.1;
                }
                e = e + 1;
            }
            let i = keys.len();
            proof {
                assert(!keys@.contains(fv)) by {
                    if keys@.contains(fv) {
                        let j = choose|j: int| 0 <= j < keys@.len() && keys@[j] == fv;
                        assert(buckets@[b as int]@.contains((fv.uv, j as usize)));
                        let q = choose|q: int| 0 <= q < buckets@[b as int]@.len() && buckets@[b as int]@[q] == (fv.uv, j as usize);
                        assert(buckets@[b as int]@[q].0 != fv.uv);
                    }
                }
            }
            let ghost k0 = keys@;
            let ghost b0 = buckets@;
            keys.push(fv);
            buckets[b].push((fv.uv, i));
            proof {
                lemma_lookup_push_old(k0, keys@, map@, b0, buckets@, b as int, fv, i);
            }
            i
        },
        None => {
            let i = keys.len();
            proof {
                assert(!keys@.contains(fv)) by {
                    if keys@.contains(fv) {
                        let j = choose|j: int| 0 <= j < keys@.len() && keys@[j] == fv;
                        assert(map@.contains_key(keys@[j].pos));
                    }
                }
            }
            let ghost k0 = keys@;
            let ghost b0 = buckets@;
            let ghost m0 = map@;
            let nb = buckets.len();
            keys.push(fv);
            let mut v: Vec<(Option<usize>, usize)> = Vec::new();
            v.push((fv.uv, i));
            buckets.push(v);
            map.insert(fv.pos, nb);
            proof {
                lemma_lookup_push_new(k0, keys@, m0, map@, b0, buckets@, fv, i);
            }
            i
        },
    }
}

proof fn lemma_push_no_dup(k0: Seq<FaceVert>, fv: FaceVert)
    requires
        k0.no_duplicates(),
        !k0.contains(fv),
    ensures
        k0.push(fv).no_duplicates(),
{
    let e = k0.push(fv);
    assert forall|i: int, j: int| 0 <= i < e.len() && 0 <= j < e.len() && i != j implies e[i] != e[j] by {
        if i < k0.len() && j < k0.len() {
        } else if i == k0.len() {
            assert(e[j] == k0[j]);
        } else {
            assert(e[i] == k0[i]);
        }
    }
}

proof fn lemma_lookup_push_old(
    k0: Seq<FaceVert>,
    k1: Seq<FaceVert>,
    map: Map<usize, usize>,
    b0: Seq<Vec<(Option<usize>, usize)>>,
    b1: Seq<Vec<(Option<usize>, usize)>>,
    b: int,
    fv: FaceVert,
    i: usize,
)
    requires
        lookup_ok(k0, map, b0),
        k0.no_duplicates(),
        !k0.contains(fv),
        i == k0.len(),
        k1 == k0.push(fv),
        map.contains_key(fv.pos),
        map[fv.pos] == b,
        0 <= b < b0.len(),
        b1.len() == b0.len(),
        b1[b]@ == b0[b]@.push((fv.uv, i)),
        forall|q: int| 0 <= q < b0.len() && q != b ==> #[trigger] b1[q] == b0[q],
    ensures
        lookup_ok(k1, map, b1),
        k1.no_duplicates(),
{
    lemma_push_no_dup(k0, fv);
    assert forall|j: int| 0 <= j < k1.len() implies map.contains_key((#[trigger] k1[j]).pos) && b1[map[k1[j].pos] as int]@.contains(
        (k1[j].uv, j as usize),
    ) by {
        if j < k0.len() {
            assert(k1[j] == k0[j]);
            let bb = map[k0[j].pos] as int;
            assert(b0[bb]@.contains((k0[j].uv, j as usize)));
            if bb == b {
                let q = choose|q: int| 0 <= q < b0[bb]@.len() && b0[bb]@[q] == (k0[j].uv, j as usize);
                assert(b1[bb]@[q] == (k0[j].uv, j as usize));
            } else {
                assert(b1[bb] == b0[bb]);
            }
        } else {
            assert(b1[b]@[b0[b]@.len() as int] == (fv.uv, i));
        }
    }
    assert forall|bq: int, e: int| 0 <= bq < b1.len() && 0 <= e < b1[bq]@.len() implies {
        let ent = #[trigger] b1[bq]@[e];
        &&& ent.1 < k1.len()
        &&& k1[ent.1 as int].uv == ent.0
        &&& map.contains_key(k1[ent.1 as int].pos)
        &&& map[k1[ent.1 as int].pos] == bq
    } by {
        if bq == b {
            if e < b0[b]@.len() {
                assert(b1[bq]@[e] == b0[bq]@[e]);
                let _ = b0[bq]@[e];
            }
        } else {
            assert(b1[bq] == b0[bq]);
            let _ = b0[bq]@[e];
        }
    }
}

proof fn lemma_lookup_push_new(
    k0: Seq<FaceVert>,
    k1: Seq<FaceVert>,
    m0: Map<usize, usize>,
    m1: Map<usize, usize>,
    b0: Seq<Vec<(Option<usize>, usize)>>,
    b1: Seq<Vec<(Option<usize>, usize)>>,
    fv: FaceVert,
    i: usize,
)
    requires
        lookup_ok(k0, m0, b0),
        k0.no_duplicates(),
        !k0.contains(fv),
        !m0.contains_key(fv.pos),
        i == k0.len(),
        k1 == k0.push(fv),
        m1 == m0.insert(fv.pos, b0.len() as usize),
        b1.len() == b0.len() + 1,
        b1[b0.len() as int]@ == seq![(fv.uv, i)],
        forall|q: int| 0 <= q < b0.len() ==> #[trigger] b1[q] == b0[q],
        b0.len() < usize::MAX,
    ensures
        lookup_ok(k1, m1, b1),
        k1.no_duplicates(),
{
    lemma_push_no_dup(k0, fv);
    let nb = b0.len() as int;
    assert forall|p: usize| #[trigger] m1.contains_key(p) implies m1[p] < b1.len() by {
        if p != fv.pos {
            assert(m0.contains_key(p));
        }
    }
    assert forall|p1: usize, p2: usize| #[trigger] m1.contains_key(p1) && #[trigger] m1.contains_key(p2) && p1 != p2 implies m1[p1] != m1[p2] by {
        if p1 != fv.pos {
            assert(m0.contains_key(p1));
        }
        if p2 != fv.pos {
            assert(m0.contains_key(p2));
        }
    }
    assert forall|j: int| 0 <= j < k1.len() implies m1.contains_key((#[trigger] k1[j]).pos) && b1[m1[k1[j].pos] as int]@.contains(
        (k1[j].uv, j as usize),
    ) by {
        if j < k0.len() {
            assert(k1[j] == k0[j]);
            assert(m0.contains_key(k0[j].pos));
            assert(k0[j].pos != fv.pos);
            let bb = m0[k0[j].pos] as int;
            assert(b1[bb] == b0[bb]);
        } else {
            assert(b1[nb]@[0] == (fv.uv, i));
        }
    }
    assert forall|bq: int, e: int| 0 <= bq < b1.len() && 0 <= e < b1[bq]@.len() implies {
        let ent = #[trigger] b1[bq]@[e];
        &&& ent.1 < k1.len()
        &&& k1[ent.1 as int].uv == ent.0
        &&& m1.contains_key(k1[ent.1 as int].pos)
        &&& m1[k1[ent.1 as int].pos] == bq
    } by {
        if bq < nb {
            assert(b1[bq] == b0[bq]);
            let ent = b0[bq]@[e];
            assert(m0.contains_key(k0[ent.1 as int].pos));
            assert(k0[ent.1 as int].pos != fv.pos);
        }
    }
}

/// Every corner of the faces is among `keys`.
pub open spec fn corners_in(faces: Seq<Seq<FaceVert>>, keys: Seq<FaceVert>) -> bool {
    forall|q: int, j: int| 0 <= q < faces.len() && 0 <= j < faces[q].len() ==> keys.contains(#[trigger] faces[q][j])
}

/// Positions in a list without repeats do not move when the list grows.
proof fn lemma_index_stable(k1: Seq<FaceVert>, k2: Seq<FaceVert>, x: FaceVert)
    requires
        k1.len() <= k2.len(),
        k1 =~= k2.subrange(0, k1.len() as int),
        k2.no_duplicates(),
        k1.contains(x),
    ensures
        index_in(k1, x) == index_in(k2, x),
        0 <= index_in(k1, x) < k1.len(),
        k1[index_in(k1, x)] == x,
{
    let i1 = index_in(k1, x);
    let i2 = index_in(k2, x);
    assert(k2[i1] == k1[i1]);
}

proof fn lemma_fans_stable(faces: Seq<Seq<FaceVert>>, k1: Seq<FaceVert>, k2: Seq<FaceVert>)
    requires
        k1.len() <= k2.len(),
        k1 =~= k2.subrange(0, k1.len() as int),
        k2.no_duplicates(),
        corners_in(faces, k1),
        forall|q: int| 0 <= q < faces.len() ==> (#[trigger] faces[q]).len() >= 3,
    ensures
        all_fans(faces, k1) == all_fans(faces, k2),
    decreases faces.len(),
{
    if faces.len() > 0 {
        let d = faces.drop_last();
        assert forall|q: int, j: int| 0 <= q < d.len() && 0 <= j < d[q].len() implies k1.contains(#[trigger] d[q][j]) by {
            assert(d[q] == faces[q]);
        }
        assert forall|q: int| 0 <= q < d.len() implies (#[trigger] d[q]).len() >= 3 by {
            assert(d[q] == faces[q]);
        }
        assert(faces[faces.len() - 1].len() >= 3);
        lemma_fans_stable(d, k1, k2);
        let f = faces.last();
        assert forall|j: int| 0 <= j < f.len() implies index_in(k1, #[trigger] f[j]) == index_in(k2, f[j]) by {
            assert(k1.contains(faces[faces.len() - 1][j]));
            lemma_index_stable(k1, k2, f[j]);
        }
        assert forall|i: int| 0 <= i < fan_of(f, k1).len() implies fan_of(f, k1)[i] == fan_of(f, k2)[i] by {
            assert(index_in(k1, f[0]) == index_in(k2, f[0]));
            assert(index_in(k1, f[i + 1]) == index_in(k2, f[i + 1]));
            assert(index_in(k1, f[i + 2]) == index_in(k2, f[i + 2]));
        }
        assert(fan_of(f, k1) =~= fan_of(f, k2));
    }
}

/// Turns the faces of an OBJ file into a list of distinct corners (in order
/// of first appearance), which become the mesh's vertices, and a fan of
/// triangles per face over positions in that list.
pub fn assemble_faces(faces: &Vec<Vec<FaceVert>>) -> (r: (Vec<FaceVert>, Vec<(usize, usize, usize)>))
    requires
        forall|q: int| 0 <= q < faces@.len() ==> (#[trigger] faces@[q])@.len() >= 3,
        all_corners(face_seqs(faces@)).len() + 2 < usize::MAX,
    ensures
        r.0@ == dedup(all_corners(face_seqs(faces@))),
        r.0@.no_duplicates(),
        r.1@ == all_fans(face_seqs(faces@), r.0@),
{
    let ghost fs = face_seqs(faces@);
    let mut keys: Vec<FaceVert> = Vec::new();
    let mut map: HashMap<usize, usize> = HashMap::new();
    let mut buckets: Vec<Vec<(Option<usize>, usize)>> = Vec::new();
    let mut triangles: Vec<(usize, usize, usize)> = Vec::new();
    proof {
        assert(fs.take(0) =~= Seq::<Seq<FaceVert>>::empty());
        assert(all_corners(fs.take(0)) =~= Seq::<FaceVert>::empty());
    }
    let mut q: usize = 0;
    while q < faces.len()
        invariant
            fs == face_seqs(faces@),
            forall|q2: int| 0 <= q2 < faces@.len() ==> (#[trigger] faces@[q2])@.len() >= 3,
            all_corners(fs).len() + 2 < usize::MAX,
            q <= faces@.len(),
            keys@ == dedup(all_corners(fs.take(q as int))),
            keys@.no_duplicates(),
            lookup_ok(keys@, map@, buckets@),
            corners_in(fs.take(q as int), keys@),
            triangles@ == all_fans(fs.take(q as int), keys@),
            all_corners(fs.take(q as int)).len() <= all_corners(fs).len(),
        decreases faces@.len() - q,
    {
        let face = &faces[q];
        let ghost f = face@;
        let ghost pre = all_corners(fs.take(q as int));
        let ghost k_start = keys@;
        proof {
            assert(fs[q as int] == f);
            lemma_corners_prefix(fs, q as int);
            lemma_dedup(pre);
            assert(pre + f.take(0) =~= pre);
        }
        let mut base: Vec<usize> = Vec::new();
        let mut j: usize = 0;
        while j < face.len()
            invariant
                fs == face_seqs(faces@),
                f == face@,
                f == fs[q as int],
                q < faces@.len(),
                pre == all_corners(fs.take(q as int)),
                pre.len() + f.len() <= all_corners(fs).len(),
                all_corners(fs).len() + 2 < usize::MAX,
                j <= f.len(),
                keys@ == dedup(pre + f.take(j as int)),
                keys@.no_duplicates(),
                lookup_ok(keys@, map@, buckets@),
                k_start.len() <= keys@.len(),
                k_start =~= keys@.subrange(0, k_start.len() as int),
                keys@.len() <= pre.len() + j,
                base@.len() == j,
                forall|t: int| 0 <= t < j ==> (#[trigger] base@[t]) < keys@.len() && keys@[base@[t] as int] == f[t],
            decreases f.len() - j,
        {
            let fv = face[j];
            let ghost kb = keys@;
            let idx = find_or_add(&mut keys, &mut map, &mut buckets, fv);
            proof {
                let cs = pre + f.take(j as int);
                assert((pre + f.take(j + 1)).drop_last() =~= cs);
                assert((pre + f.take(j + 1)).last() == fv);
                lemma_dedup(cs);
                assert(kb =~= keys@.subrange(0, kb.len() as int));
            }
            base.push(idx);
            j = j + 1;
        }
        proof {
            assert(f.take(f.len() as int) =~= f);
            assert(fs.take(q + 1).drop_last() =~= fs.take(q as int));
            assert(fs.take(q + 1).last() == f);
            assert(all_corners(fs.take(q + 1)) == pre + f);
            lemma_dedup(pre + f);
            // every corner seen so far is a key
            assert forall|q2: int, j2: int| 0 <= q2 < fs.take(q + 1).len() && 0 <= j2 < fs.take(q + 1)[q2].len() implies keys@.contains(
                #[trigger] fs.take(q + 1)[q2][j2],
            ) by {
                if q2 < q {
                    assert(fs.take(q + 1)[q2] == fs.take(q as int)[q2]);
                    assert(k_start.contains(fs.take(q as int)[q2][j2]));
                    let t = choose|t: int| 0 <= t < k_start.len() && k_start[t] == fs.take(q as int)[q2][j2];
                    assert(keys@[t] == k_start[t]);
                } else {
                    assert(keys@[base@[j2] as int] == f[j2]);
                }
            }
            assert forall|q2: int| 0 <= q2 < fs.take(q as int).len() implies (#[trigger] fs.take(q as int)[q2]).len() >= 3 by {
                assert(fs.take(q as int)[q2] == faces@[q2]@);
            }
            lemma_fans_stable(fs.take(q as int), k_start, keys@);
        }
        let mut t: usize = 1;
        while t < base.len() - 1
            invariant
                1 <= t,
                t < base@.len(),
                base@.len() == f.len(),
                f.len() >= 3,
                forall|u: int| 0 <= u < f.len() ==> (#[trigger] base@[u]) < keys@.len() && keys@[base@[u] as int] == f[u],
                keys@.no_duplicates(),
                triangles@ == all_fans(fs.take(q as int), keys@) + fan_of(f, keys@).take(t - 1),
            decreases base@.len() - t,
        {
            proof {
                assert forall|u: int| 0 <= u < f.len() implies index_in(keys@, #[trigger] f[u]) == base@[u] by {
                    let i = index_in(keys@, f[u]);
                    assert(keys@[base@[u] as int] == f[u]);
                }
            }
            triangles.push((base[0], base[t], base[t + 1]));
            proof {
                assert(fan_of(f, keys@).take(t as int) =~= fan_of(f, keys@).take(t - 1).push(fan_of(f, keys@)[t - 1]));
            }
            t = t + 1;
        }
        proof {
            assert(fan_of(f, keys@).take(t - 1) =~= fan_of(f, keys@));
            assert(fs.take(q + 1).drop_last() =~= fs.take(q as int));
        }
        q = q + 1;
    }
    proof {
        assert(fs.take(faces@.len() as int) =~= fs);
    }
    (keys, triangles)
}

proof fn lemma_corners_prefix(fs: Seq<Seq<FaceVert>>, q: int)
    requires
        0 <= q < fs.len(),
    ensures
        all_corners(fs.take(q)).len() + fs[q].len() <= all_corners(fs).len(),
        all_corners(fs.take(q + 1)) == all_corners(fs.take(q)) + fs[q],
    decreases fs.len() - q,
{
    assert(fs.take(q + 1).drop_last() =~= fs.take(q));
    assert(fs.take(q + 1).last() == fs[q]);
    if q + 1 < fs.len() {
        lemma_corners_prefix(fs, q + 1);
    } else {
        assert(fs.take(q + 1) =~= fs);
    }
}

/// Whether `c` is white space (Unicode `White_Space`, as `char::is_whitespace`).
pub open spec fn is_ws(c: char) -> bool {
    ||| c == '\t' || c == '\n' || c == '\u{0B}' || c == '\u{0C}' || c == '\r' || c == ' '
    ||| c == '\u{85}' || c == '\u{A0}' || c == '\u{1680}'
    ||| ('\u{2000}' <= c && c <= '\u{200A}')
    ||| c == '\u{2028}' || c == '\u{2029}' || c == '\u{202F}' || c == '\u{205F}' || c == '\u{3000}'
}

fn is_ws_char(c: char) -> (r: bool)
    ensures
        r == is_ws(c),
{
    c == '\t' || c == '\n' || c == '\u{0B}' || c == '\u{0C}' || c == '\r' || c == ' ' || c == '\u{85}' || c
        == '\u{A0}' || c == '\u{1680}' || ('\u{2000}' <= c && c <= '\u{200A}') || c == '\u{2028}' || c == '\u{2029}'
        || c == '\u{202F}' || c == '\u{205F}' || c == '\u{3000}'
}

/// End of the run of non-space characters of `s` that starts at `i`.
pub open spec fn token_end(s: Seq<char>, i: int) -> int
    decreases s.len() - i,
{
    if i >= s.len() || is_ws(s[i]) {
        i
    } else {
        token_end(s, i + 1)
    }
}

/// The white-space separated words of `s` from position `i` on.
pub open spec fn tokens_from(s: Seq<char>, i: int) -> Seq<Seq<char>>
    decreases s.len() - i, 1int,
{
    if i < 0 || i >= s.len() {
        Seq::empty()
    } else if is_ws(s[i]) {
        tokens_from(s, i + 1)
    } else {
        proof {
            lemma_token_end(s, i);
        }
        seq![s.subrange(i, token_end(s, i))].add(tokens_from(s, token_end(s, i)))
    }
}

pub proof fn lemma_token_end(s: Seq<char>, i: int)
    requires
        0 <= i,
    ensures
        i <= token_end(s, i),
        i < s.len() && !is_ws(s[i]) ==> i < token_end(s, i),
        i <= s.len() ==> token_end(s, i) <= s.len(),
    decreases s.len() - i,
{
    if i < s.len() && !is_ws(s[i]) {
        lemma_token_end(s, i + 1);
    }
}

/// The corners that `parse_face_vert` accepts among the words `ts`, in order.
pub open spec fn face_verts(ts: Seq<Seq<char>>) -> Seq<FaceVert>
    decreases ts.len(),
{
    if ts.len() == 0 {
        Seq::empty()
    } else {
        let rest = face_verts(ts.drop_last());
        match face_vert_spec(ts.last()) {
            Some(v) => rest.push(v),
            None => rest,
        }
    }
}

/// A line of an OBJ file as the reader sees it.
pub enum ObjLine {
    /// Nothing to read: an empty or comment line, a `v` line with fewer than
    /// three coordinates, a `vt` line with fewer than two, a face with fewer
    /// than three usable corners, or another keyword.
    Skip,
    /// A `v` line's first three coordinate words.
    Position(String, String, String),
    /// A `vt` line's first two coordinate words.
    TexCoord(String, String),
    /// An `f` line's usable corners (at least three).
    Face(Vec<FaceVert>),
}

/// What an OBJ line is, from its words `ts` (see `classify_obj_line`).
pub open spec fn obj_line_matches(ts: Seq<Seq<char>>, r: ObjLine) -> bool {
    if ts.len() > 0 && ts[0] == seq!['v'] && ts.len() >= 4 {
        r matches ObjLine::Position(x, y, z) && x@ == ts[1] && y@ == ts[2] && z@ == ts[3]
    } else if ts.len() > 0 && ts[0] == seq!['v', 't'] && ts.len() >= 3 {
        r matches ObjLine::TexCoord(u, v) && u@ == ts[1] && v@ == ts[2]
    } else if ts.len() > 0 && ts[0] == seq!['f'] && face_verts(ts.subrange(1, ts.len() as int)).len() >= 3 {
        r matches ObjLine::Face(vs) && vs@ == face_verts(ts.subrange(1, ts.len() as int))
    } else {
        r is Skip
    }
}

/// Splits `line` into its white-space separated words.
fn line_words(line: &str) -> (r: Vec<String>)
    ensures
        r@.map_values(|t: String| t@) == tokens_from(line@, 0),
{
    let n = line.unicode_len();
    let mut words: Vec<String> = Vec::new();
    let mut i: usize = 0;
    while i < n
        invariant
            n == line@.len(),
            i <= n,
            words@.map_values(|t: String| t@) + tokens_from(line@, i as int) == tokens_from(line@, 0),
        decreases n - i,
    {
        if is_ws_char(line.get_char(i)) {
            i = i + 1;
        } else {
            let mut j: usize = i;
            while j < n && !is_ws_char(line.get_char(j))
                invariant
                    n == line@.len(),
                    i <= j <= n,
                    token_end(line@, i as int) == token_end(line@, j as int),
                decreases n - j,
            {
                j = j + 1;
            }
            proof {
                lemma_token_end(line@, i as int);
                assert(token_end(line@, j as int) == j);
            }
            let w = String::from_str(line.substring_char(i, j));
            let ghost before = words@;
            words.push(w);
            proof {
                assert(words@.map_values(|t: String| t@) =~= before.map_values(|t: String| t@).push(line@.subrange(i as int, j as int)));
                assert(before.map_values(|t: String| t@).push(line@.subrange(i as int, j as int)) + tokens_from(line@, j as int)
                    =~= before.map_values(|t: String| t@) + (seq![line@.subrange(i as int, j as int)] + tokens_from(line@, j as int)));
            }
            i = j;
        }
    }
    proof {
        assert(words@.map_values(|t: String| t@) + Seq::<Seq<char>>::empty() =~= words@.map_values(|t: String| t@));
    }
    words
}

/// Whether the word `w` is exactly `c`.
fn word_is1(w: &String, c: char) -> (r: bool)
    ensures
        r == (w@ == seq![c]),
{
    let s = w.as_str();
    if s.unicode_len() == 1 {
        let r = s.get_char(0) == c;
        proof {
            if r {
                assert(w@ =~= seq![c]);
            }
        }
        r
    } else {
        false
    }
}

/// Whether the word `w` is exactly `c` followed by `d`.
fn word_is2(w: &String, c: char, d: char) -> (r: bool)
    ensures
        r == (w@ == seq![c, d]),
{
    let s = w.as_str();
    if s.unicode_len() == 2 {
        let r = s.get_char(0) == c && s.get_char(1) == d;
        proof {
            if r {
                assert(w@ =~= seq![c, d]);
            }
        }
        r
    } else {
        false
    }
}

/// Reads one line of an OBJ file: its first word decides. A `v` line with
/// at least three more words gives them as coordinates, a `vt` line with at
/// least two gives those, an `f` line gives its words that parse as face
/// corners (see `parse_face_vert`) when there are at least three; anything
/// else (blank lines and `#` comments included) is skipped.
pub fn classify_obj_line(line: &str) -> (r: ObjLine)
    ensures
        obj_line_matches(tokens_from(line@, 0), r),
{
    let words = line_words(line);
    let ghost ts = words@.map_values(|t: String| t@);
    if words.len() == 0 {
        return ObjLine::Skip;
    }
    proof {
        assert(ts[0] == words@[0]@);
        assert(seq!['v'] != seq!['v', 't']) by {
            assert(seq!['v'].len() != seq!['v', 't'].len());
        }
        assert(seq!['v'] != seq!['f']) by {
            assert(seq!['v'][0] != seq!['f'][0]);
        }
        assert(seq!['f'] != seq!['v', 't']) by {
            assert(seq!['f'].len() != seq!['v', 't'].len());
        }
    }
    if word_is1(&words[0], 'v') {
        if words.len() >= 4 {
            proof {
                assert(ts[1] == words@[1]@ && ts[2] == words@[2]@ && ts[3] == words@[3]@);
            }
            return ObjLine::Position(words[1].clone(), words[2].clone(), words[3].clone());
        }
        return ObjLine::Skip;
    }
    if word_is2(&words[0], 'v', 't') {
        if words.len() >= 3 {
            proof {
                assert(ts[1] == words@[1]@ && ts[2] == words@[2]@);
            }
            return ObjLine::TexCoord(words[1].clone(), words[2].clone());
        }
        return ObjLine::Skip;
    }
    if word_is1(&words[0], 'f') {
        let mut verts: Vec<FaceVert> = Vec::new();
        let mut k: usize = 1;
        while k < words.len()
            invariant
                1 <= k <= words@.len(),
                ts == words@.map_values(|t: String| t@),
                verts@ == face_verts(ts.subrange(1, k as int)),
            decreases words@.len() - k,
        {
            let parsed = parse_face_vert(words[k].as_str());
            proof {
                assert(ts.subrange(1, k + 1).drop_last() =~= ts.subrange(1, k as int));
                assert(ts.subrange(1, k + 1).last() == words@[k as int]@);
            }
            match parsed {
                Some(v) => {
                    verts.push(v);
                },
                None => {},
            }
            k = k + 1;
        }
        if verts.len() >= 3 {
            return ObjLine::Face(verts);
        }
        return ObjLine::Skip;
    }
    ObjLine::Skip
}

} // verus!
