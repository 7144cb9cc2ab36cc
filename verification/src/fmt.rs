//! Rendering for debugging: a container shows as a map from handle to value.

use vstd::prelude::*;
use crate::option_vec::OptionVec;
use crate::slots::is_occupied;

verus! {

/// `core::fmt::Formatter`: where a rendering is written. Nothing is known of
/// what it holds.
#[verifier::external_type_specification]
#[verifier::external_body]
pub struct ExFormatter<'a>(core::fmt::Formatter<'a>);

/// `core::fmt::DebugMap`: a map in the course of being rendered. Nothing is
/// known of what it holds.
#[verifier::external_type_specification]
#[verifier::external_body]
pub struct ExDebugMap<'a, 'b: 'a>(core::fmt::DebugMap<'a, 'b>);

/// `core::fmt::Error`: that a rendering could not be written.
#[verifier::external_type_specification]
#[verifier::external_body]
pub struct ExFmtError(core::fmt::Error);

/// `Formatter::debug_map`: starts the rendering of a map. Nothing is claimed
/// of it.
pub assume_specification<'a, 'b>[ core::fmt::Formatter::<'a>::debug_map ](
    f: &'b mut core::fmt::Formatter<'a>,
) -> (m: core::fmt::DebugMap<'b, 'a>)
;

/// `DebugMap::entry`: renders one more pair of the map, `key` and `value`.
/// Nothing is claimed of it. It panics only where a key was rendered without
/// its value before, which nothing here does: this is the one way in which
/// the library adds to a map.
#[verifier::external_body]
fn map_entry<K: core::fmt::Debug, V: core::fmt::Debug>(
    m: &mut core::fmt::DebugMap<'_, '_>,
    key: &K,
    value: &V,
) {
    m.entry(key, value);
}

/// `DebugMap::finish`: ends the rendering and says whether it went through.
/// Nothing is claimed of it.
pub assume_specification<'a, 'b: 'a>[ core::fmt::DebugMap::<'a, 'b>::finish ](
    m: &mut core::fmt::DebugMap<'a, 'b>,
) -> (r: Result<(), core::fmt::Error>)
;

/// `entries` lists the valid handles of `s` in ascending order, each with its
/// value.
pub open spec fn is_entries_of<T>(entries: Seq<(usize, &T)>, s: Seq<Option<T>>) -> bool {
    &&& forall|k: int|
        0 <= k < entries.len() ==> is_occupied(s, (#[trigger] entries[k]).0 as int)
            && s[entries[k].0 as int] == Some(*entries[k].1)
    &&& forall|j: int, k: int| 0 <= j < k < entries.len() ==> entries[j].0 < entries[k].0
    &&& forall|h: int|
        is_occupied(s, h) ==> exists|k: int| 0 <= k < entries.len() && #[trigger] entries[k].0 == h
}

impl<T> OptionVec<T> {
    /// The valid handles in ascending order, each with its value: what the
    /// rendering shows.
    pub fn entries(&self) -> (r: Vec<(usize, &T)>)
        ensures
            is_entries_of(r@, self@),
    {
        let slots = self.inner();
        let mut out: Vec<(usize, &T)> = Vec::new();
        let mut i: usize = 0;
        while i < slots.len()
            invariant
                i <= slots@.len(),
                is_entries_of(out@, slots@.take(i as int)),
            decreases slots@.len() - i,
        {
            let ghost before = out@;
            match &slots[i] {
                Some(v) => {
                    out.push((i, v));
                    proof {
                        let now = slots@.take(i + 1);
                        assert forall|h: int| is_occupied(now, h) implies exists|k: int|
                            0 <= k < out@.len() && #[trigger] out@[k].0 == h by {
                            if h < i {
                                assert(is_occupied(slots@.take(i as int), h));
                                let k = choose|k: int| 0 <= k < before.len() && #[trigger] before[k].0 == h;
                                assert(out@[k].0 == h);
                            } else {
                                assert(out@[before.len() as int].0 == h);
                            }
                        }
                    }
                },
                None => {
                    proof {
                        let now = slots@.take(i + 1);
                        assert forall|h: int| is_occupied(now, h) implies exists|k: int|
                            0 <= k < out@.len() && #[trigger] out@[k].0 == h by {
                            assert(is_occupied(slots@.take(i as int), h));
                        }
                    }
                },
            }
            i = i + 1;
        }
        proof {
            assert(slots@.take(i as int) =~= slots@);
        }
        out
    }
}

impl<T: core::fmt::Debug> core::fmt::Debug for OptionVec<T> {
    /// Renders the container as a map from each valid handle to its value, in
    /// ascending order of the handles.
    fn fmt(&self, f: &mut core::fmt::Formatter<'_>) -> (r: Result<(), core::fmt::Error>) {
        let entries = self.entries();
        let mut map = f.debug_map();
        let mut k: usize = 0;
        while k < entries.len()
            invariant
                k <= entries@.len(),
            decreases entries@.len() - k,
        {
            map_entry(&mut map, &entries[k].0, entries[k].1);
            k = k + 1;
        }
        map.finish()
    }
}

} // verus!
