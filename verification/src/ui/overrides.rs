//! Per-patch overrides of a setting (a patch's shader or material), kept as
//! a list of `(patch, value)` entries.
use vstd::prelude::*;

verus! {

/// The overrides that the entries `s` set: a later entry for a patch
/// replaces an earlier one.
pub open spec fn overrides_map<V>(s: Seq<((usize, usize), V)>) -> Map<(usize, usize), V>
    decreases s.len(),
{
    if s.len() == 0 {
        Map::empty()
    } else {
        overrides_map(s.drop_last()).insert(s.last().0, s.last().1)
    }
}

/// The override that `s` sets for `patch`, if any.
pub open spec fn override_of<V>(s: Seq<((usize, usize), V)>, patch: (usize, usize)) -> Option<V> {
    if overrides_map(s).contains_key(patch) {
        Some(overrides_map(s)[patch])
    } else {
        None
    }
}

/// The override that `entries` set for `patch`, if any.
pub fn find_override<V: Copy>(entries: &Vec<((usize, usize), V)>, patch: (usize, usize)) -> (r: Option<V>)
    ensures
        r == override_of(entries@, patch),
{
    let mut found: Option<V> = None;
    let mut i: usize = 0;
    while i < entries.len()
        invariant
            i <= entries@.len(),
            found == override_of(entries@.take(i as int), patch),
        decreases entries@.len() - i,
    {
        proof {
            assert(entries@.take(i + 1).drop_last() =~= entries@.take(i as int));
        }
        let (p, v) = entries[i];
        if p.0 == patch.0 && p.1 == patch.1 {
            found = Some(v);
        }
        i = i + 1;
    }
    proof {
        assert(entries@.take(entries@.len() as int) =~= entries@);
    }
    found
}

/// Drops every override of `patch`.
pub fn remove_override<V: Copy>(entries: &mut Vec<((usize, usize), V)>, patch: (usize, usize))
    ensures
        overrides_map(final(entries)@) == overrides_map(old(entries)@).remove(patch),
        final(entries)@.len() <= old(entries)@.len(),
{
    let mut kept: Vec<((usize, usize), V)> = Vec::new();
    let mut i: usize = 0;
    while i < entries.len()
        invariant
            i <= entries@.len(),
            entries@ == old(entries)@,
            kept@.len() <= i,
            overrides_map(kept@) == overrides_map(entries@.take(i as int)).remove(patch),
        decreases entries@.len() - i,
    {
        proof {
            assert(entries@.take(i + 1).drop_last() =~= entries@.take(i as int));
        }
        let e = entries[i];
        if e.0.0 != patch.0 || e.0.1 != patch.1 {
            let ghost k0 = kept@;
            kept.push(e);
            proof {
                assert(kept@.drop_last() =~= k0);
                assert(overrides_map(kept@) =~= overrides_map(entries@.take(i + 1)).remove(patch));
            }
        } else {
            proof {
                assert(overrides_map(kept@) =~= overrides_map(entries@.take(i + 1)).remove(patch));
            }
        }
        i = i + 1;
    }
    proof {
        assert(entries@.take(entries@.len() as int) =~= entries@);
    }
    *entries = kept;
}

/// Sets the override of `patch` to `value`, keeping one entry per patch.
pub fn set_override<V: Copy>(entries: &mut Vec<((usize, usize), V)>, patch: (usize, usize), value: V)
    ensures
        overrides_map(final(entries)@) == overrides_map(old(entries)@).insert(patch, value),
        final(entries)@.len() <= old(entries)@.len() + 1,
{
    remove_override(entries, patch);
    let ghost e0 = entries@;
    entries.push((patch, value));
    proof {
        assert(entries@.drop_last() =~= e0);
        assert(overrides_map(entries@) =~= overrides_map(old(entries)@).insert(patch, value));
    }
}

} // verus!
