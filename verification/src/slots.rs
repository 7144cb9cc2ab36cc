//! The model of a container: a sequence of slots, and what each operation
//! makes of it.

use vstd::prelude::*;

verus! {

/// Handle `h` is valid in `s`: it is in range and its slot holds a value.
pub open spec fn is_occupied<T>(s: Seq<Option<T>>, h: int) -> bool {
    0 <= h < s.len() && s[h] is Some
}

/// Handle `h` is in range and its slot holds no value.
pub open spec fn is_vacant<T>(s: Seq<Option<T>>, h: int) -> bool {
    0 <= h < s.len() && s[h] is None
}

/// The logical content of `s`: the values of its occupied slots, by ascending
/// handle.
pub open spec fn occupied_values<T>(s: Seq<Option<T>>) -> Seq<T> {
    s.filter_map(|slot: Option<T>| slot)
}

/// The number of occupied slots of `s`.
pub open spec fn occupied_count<T>(s: Seq<Option<T>>) -> nat {
    occupied_values(s).len()
}

/// The smallest vacant handle of `s`, or `s.len()` where every slot is occupied.
pub open spec fn first_vacant<T>(s: Seq<Option<T>>) -> int
    decreases s.len(),
{
    if s.len() == 0 || s[0] is None {
        0
    } else {
        1 + first_vacant(s.drop_first())
    }
}

/// The smallest occupied handle of `s`, or `s.len()` where every slot is vacant.
pub open spec fn first_occupied<T>(s: Seq<Option<T>>) -> int
    decreases s.len(),
{
    if s.len() == 0 || s[0] is Some {
        0
    } else {
        1 + first_occupied(s.drop_first())
    }
}

/// One more than the largest occupied handle of `s`, or 0 where every slot is
/// vacant: the length of `s` without its trailing vacant slots.
pub open spec fn end_occupied<T>(s: Seq<Option<T>>) -> int
    decreases s.len(),
{
    if s.len() == 0 {
        0
    } else if s.last() is Some {
        s.len() as int
    } else {
        end_occupied(s.drop_last())
    }
}

/// `s` without its trailing vacant slots.
pub open spec fn trimmed<T>(s: Seq<Option<T>>) -> Seq<Option<T>> {
    s.take(end_occupied(s))
}

/// The slot of handle `h`, vacant where `h` is out of range.
pub open spec fn slot_at<T>(s: Seq<Option<T>>, h: int) -> Option<T> {
    if 0 <= h < s.len() {
        s[h]
    } else {
        None
    }
}

/// `s` after the insertion of `v`: `v` fills the smallest vacant handle, or is
/// appended where there is none.
pub open spec fn inserted<T>(s: Seq<Option<T>>, v: T) -> Seq<Option<T>> {
    if first_vacant(s) < s.len() {
        s.update(first_vacant(s), Some(v))
    } else {
        s.push(Some(v))
    }
}

/// `s` after the removal of handle `h`: the slot is vacant, and nothing else
/// has changed; an `h` out of range changes nothing.
pub open spec fn removed<T>(s: Seq<Option<T>>, h: int) -> Seq<Option<T>> {
    if 0 <= h < s.len() {
        s.update(h, None)
    } else {
        s
    }
}

/// The number of vacant slots of `s`.
pub open spec fn vacant_count<T>(s: Seq<Option<T>>) -> int {
    s.len() - occupied_count(s)
}

/// The number of slots by which `s` has to grow to take `n` further
/// insertions: what of `n` its vacant slots do not cover.
pub open spec fn shortfall<T>(s: Seq<Option<T>>, n: int) -> int {
    if vacant_count(s) < n {
        n - vacant_count(s)
    } else {
        0
    }
}

/// `n` vacant slots.
pub open spec fn all_vacant<T>(n: nat) -> Seq<Option<T>> {
    Seq::new(n, |h: int| None::<T>)
}

/// `first_vacant(s)` is in `0..=s.len()`, every handle below it is occupied,
/// and it is vacant itself unless it is `s.len()`.
pub proof fn lemma_first_vacant<T>(s: Seq<Option<T>>)
    ensures
        0 <= first_vacant(s) <= s.len(),
        forall|h: int| 0 <= h < first_vacant(s) ==> (#[trigger] s[h]) is Some,
        first_vacant(s) < s.len() ==> s[first_vacant(s)] is None,
    decreases s.len(),
{
    if s.len() != 0 && s[0] is Some {
        let t = s.drop_first();
        lemma_first_vacant(t);
        assert forall|h: int| 0 <= h < first_vacant(s) implies (#[trigger] s[h]) is Some by {
            if h > 0 {
                assert(s[h] == t[h - 1]);
            }
        }
    }
}

/// `first_occupied(s)` is in `0..=s.len()`, every handle below it is vacant,
/// and it is occupied itself unless it is `s.len()`.
pub proof fn lemma_first_occupied<T>(s: Seq<Option<T>>)
    ensures
        0 <= first_occupied(s) <= s.len(),
        forall|h: int| 0 <= h < first_occupied(s) ==> (#[trigger] s[h]) is None,
        first_occupied(s) < s.len() ==> s[first_occupied(s)] is Some,
    decreases s.len(),
{
    if s.len() != 0 && s[0] is None {
        let t = s.drop_first();
        lemma_first_occupied(t);
        assert forall|h: int| 0 <= h < first_occupied(s) implies (#[trigger] s[h]) is None by {
            if h > 0 {
                assert(s[h] == t[h - 1]);
            }
        }
    }
}

/// `end_occupied(s)` is in `0..=s.len()`, every handle from it on is vacant,
/// and the handle just below it, if there is one, is occupied.
pub proof fn lemma_end_occupied<T>(s: Seq<Option<T>>)
    ensures
        0 <= end_occupied(s) <= s.len(),
        forall|h: int| end_occupied(s) <= h < s.len() ==> (#[trigger] s[h]) is None,
        end_occupied(s) > 0 ==> s[end_occupied(s) - 1] is Some,
    decreases s.len(),
{
    if s.len() != 0 && s.last() is None {
        let t = s.drop_last();
        lemma_end_occupied(t);
        assert forall|h: int| end_occupied(s) <= h < s.len() implies (#[trigger] s[h]) is None by {
            if h < t.len() {
                assert(s[h] == t[h]);
            }
        }
    }
}

/// The logical content of a concatenation is the concatenation of the logical
/// contents.
pub proof fn lemma_values_concat<T>(a: Seq<Option<T>>, b: Seq<Option<T>>)
    ensures
        occupied_values(a + b) == occupied_values(a) + occupied_values(b),
    decreases b.len(),
{
    if b.len() == 0 {
        assert(a + b =~= a);
        assert(occupied_values(a) + occupied_values(b) =~= occupied_values(a));
    } else {
        assert((a + b).drop_last() =~= a + b.drop_last());
        assert((a + b).last() == b.last());
        lemma_values_concat(a, b.drop_last());
        assert(occupied_values(a + b) =~= occupied_values(a) + occupied_values(b));
    }
}

/// The logical content of a single slot.
pub proof fn lemma_values_single<T>(slot: Option<T>)
    ensures
        occupied_values(seq![slot]) == (match slot {
            Some(v) => seq![v],
            None => Seq::<T>::empty(),
        }),
{
    let s = seq![slot];
    assert(s.drop_last() =~= Seq::<Option<T>>::empty());
    assert(occupied_values(s.drop_last()) =~= Seq::<T>::empty());
    assert(s.last() == slot);
    match slot {
        Some(v) => {
            assert(occupied_values(s) =~= seq![v]);
        },
        None => {
            assert(occupied_values(s) =~= Seq::<T>::empty());
        },
    }
}

/// A handle below which every slot is occupied, and which is vacant or the
/// length, is the first vacant handle.
pub proof fn lemma_first_vacant_is<T>(s: Seq<Option<T>>, h: int)
    requires
        0 <= h <= s.len(),
        forall|j: int| 0 <= j < h ==> (#[trigger] s[j]) is Some,
        h < s.len() ==> s[h] is None,
    ensures
        first_vacant(s) == h,
{
    lemma_first_vacant(s);
    let f = first_vacant(s);
    if f < h {
        assert(s[f] is Some);
    } else if h < f {
        assert(s[h] is Some);
    }
}

/// A handle below which every slot is vacant, and which is occupied or the
/// length, is the first occupied handle.
pub proof fn lemma_first_occupied_is<T>(s: Seq<Option<T>>, h: int)
    requires
        0 <= h <= s.len(),
        forall|j: int| 0 <= j < h ==> (#[trigger] s[j]) is None,
        h < s.len() ==> s[h] is Some,
    ensures
        first_occupied(s) == h,
{
    lemma_first_occupied(s);
    let f = first_occupied(s);
    if f < h {
        assert(s[f] is None);
    } else if h < f {
        assert(s[h] is None);
    }
}

/// A handle from which on every slot is vacant, and below which the next
/// slot, if there is one, is occupied, is the end of the occupied slots.
pub proof fn lemma_end_occupied_is<T>(s: Seq<Option<T>>, e: int)
    requires
        0 <= e <= s.len(),
        forall|j: int| e <= j < s.len() ==> (#[trigger] s[j]) is None,
        e > 0 ==> s[e - 1] is Some,
    ensures
        end_occupied(s) == e,
{
    lemma_end_occupied(s);
    let f = end_occupied(s);
    if f < e {
        assert(s[e - 1] is None);
    } else if e < f {
        assert(s[f - 1] is None);
    }
}

/// Vacant slots add nothing to the logical content.
pub proof fn lemma_values_all_vacant<T>(s: Seq<Option<T>>)
    requires
        forall|h: int| 0 <= h < s.len() ==> (#[trigger] s[h]) is None,
    ensures
        occupied_values(s) == Seq::<T>::empty(),
    decreases s.len(),
{
    if s.len() == 0 {
        assert(occupied_values(s) =~= Seq::<T>::empty());
    } else {
        let t = s.drop_last();
        assert forall|h: int| 0 <= h < t.len() implies (#[trigger] t[h]) is None by {
            assert(t[h] == s[h]);
        }
        lemma_values_all_vacant(t);
        assert(s.last() == s[s.len() - 1]);
    }
}

/// The logical content of `s`, cut at handle `h`: what lies below `h`, then
/// the slot of `h`, then what lies above it.
pub proof fn lemma_values_split<T>(s: Seq<Option<T>>, h: int)
    requires
        0 <= h < s.len(),
    ensures
        occupied_values(s) == occupied_values(s.take(h)) + occupied_values(seq![s[h]])
            + occupied_values(s.skip(h + 1)),
{
    assert(s =~= (s.take(h) + seq![s[h]]) + s.skip(h + 1));
    lemma_values_concat(s.take(h) + seq![s[h]], s.skip(h + 1));
    lemma_values_concat(s.take(h), seq![s[h]]);
}

/// No more slots are occupied than there are slots, and none is occupied
/// exactly where no handle is valid.
pub proof fn lemma_count_bounds<T>(s: Seq<Option<T>>)
    ensures
        occupied_count(s) <= s.len(),
        occupied_count(s) == 0 <==> forall|h: int| !is_occupied(s, h),
    decreases s.len(),
{
    if s.len() == 0 {
        assert(occupied_values(s) =~= Seq::<T>::empty());
    } else {
        let t = s.drop_last();
        lemma_count_bounds(t);
        if occupied_count(s) == 0 {
            assert forall|h: int| !is_occupied(s, h) by {
                if 0 <= h < t.len() {
                    assert(!is_occupied(t, h));
                    assert(t[h] == s[h]);
                }
            }
        }
        if forall|h: int| !is_occupied(s, h) {
            assert forall|h: int| 0 <= h < s.len() implies (#[trigger] s[h]) is None by {
                assert(!is_occupied(s, h));
            }
            lemma_values_all_vacant(s);
        }
    }
}

/// The first occupied slot holds the first value of the logical content, and
/// what lies above it holds the rest.
pub proof fn lemma_first_occupied_value<T>(s: Seq<Option<T>>)
    ensures
        first_occupied(s) == s.len() <==> occupied_count(s) == 0,
        first_occupied(s) < s.len() ==> {
            &&& s[first_occupied(s)] == Some(occupied_values(s).first())
            &&& occupied_values(s.skip(first_occupied(s) + 1)) == occupied_values(s).drop_first()
            &&& occupied_values(removed(s, first_occupied(s))) == occupied_values(s).drop_first()
        },
{
    lemma_first_occupied(s);
    let f = first_occupied(s);
    if f < s.len() {
        let below = s.take(f);
        let above = s.skip(f + 1);
        assert forall|h: int| 0 <= h < below.len() implies (#[trigger] below[h]) is None by {
            assert(below[h] == s[h]);
        }
        lemma_values_all_vacant(below);
        lemma_values_split(s, f);
        lemma_values_single(s[f]);
        assert(occupied_values(s) =~= seq![s[f]->0] + occupied_values(above));
        assert(occupied_values(above) =~= occupied_values(s).drop_first());
        let r = removed(s, f);
        lemma_values_split(r, f);
        lemma_values_single(r[f]);
        assert(r.take(f) =~= below);
        assert(r.skip(f + 1) =~= above);
        assert(occupied_values(r) =~= occupied_values(above));
    } else {
        lemma_values_all_vacant(s);
    }
}

/// The last occupied slot holds the last value of the logical content, and
/// what lies below it holds the rest.
pub proof fn lemma_last_occupied_value<T>(s: Seq<Option<T>>)
    ensures
        end_occupied(s) == 0 <==> occupied_count(s) == 0,
        end_occupied(s) > 0 ==> {
            &&& s[end_occupied(s) - 1] == Some(occupied_values(s).last())
            &&& occupied_values(s.take(end_occupied(s) - 1)) == occupied_values(s).drop_last()
            &&& occupied_values(removed(s, end_occupied(s) - 1)) == occupied_values(s).drop_last()
        },
{
    lemma_end_occupied(s);
    let e = end_occupied(s);
    if e > 0 {
        let below = s.take(e - 1);
        let above = s.skip(e);
        assert forall|h: int| 0 <= h < above.len() implies (#[trigger] above[h]) is None by {
            assert(above[h] == s[h + e]);
        }
        lemma_values_all_vacant(above);
        lemma_values_split(s, e - 1);
        lemma_values_single(s[e - 1]);
        assert(occupied_values(s) =~= occupied_values(below) + seq![s[e - 1]->0]);
        assert(occupied_values(below) =~= occupied_values(s).drop_last());
        let r = removed(s, e - 1);
        lemma_values_split(r, e - 1);
        lemma_values_single(r[e - 1]);
        assert(r.take(e - 1) =~= below);
        assert(r.skip(e) =~= above);
        assert(occupied_values(r) =~= occupied_values(below));
    } else {
        lemma_values_all_vacant(s);
    }
}

/// Trailing vacant slots are no part of the logical content: to trim them
/// changes neither the values nor which handles are valid, and leaves nothing
/// more to trim.
pub proof fn lemma_trimmed<T>(s: Seq<Option<T>>)
    ensures
        occupied_values(trimmed(s)) == occupied_values(s),
        forall|h: int| is_occupied(trimmed(s), h) <==> is_occupied(s, h),
        forall|h: int| 0 <= h < trimmed(s).len() ==> trimmed(s)[h] == s[h],
        trimmed(trimmed(s)) == trimmed(s),
{
    lemma_end_occupied(s);
    let e = end_occupied(s);
    let t = trimmed(s);
    let above = s.skip(e);
    assert forall|h: int| 0 <= h < above.len() implies (#[trigger] above[h]) is None by {
        assert(above[h] == s[h + e]);
    }
    lemma_values_all_vacant(above);
    assert(s =~= t + above);
    lemma_values_concat(t, above);
    assert(occupied_values(s) =~= occupied_values(t));
    assert forall|h: int| is_occupied(t, h) <==> is_occupied(s, h) by {
        if 0 <= h < s.len() && h >= e {
            assert(s[h] is None);
        }
    }
    lemma_end_occupied_is(t, e);
    assert(trimmed(t) =~= t);
}

/// A vacant slot is no part of the logical content: a sequence with one of
/// its vacant slots left out has the same values.
pub proof fn lemma_vacant_slot_is_no_value<T>(s: Seq<Option<T>>, h: int)
    requires
        is_vacant(s, h),
    ensures
        occupied_values(s.remove(h)) == occupied_values(s),
{
    lemma_values_split(s, h);
    lemma_values_single(s[h]);
    assert(s.remove(h) =~= s.take(h) + s.skip(h + 1));
    lemma_values_concat(s.take(h), s.skip(h + 1));
    assert(occupied_values(s) =~= occupied_values(s.take(h)) + occupied_values(s.skip(h + 1)));
}

/// To vacate the handles whose values fail `keep`, and to touch nothing else,
/// is to filter the logical content by `keep`: the values that stay are in
/// the order they were in.
pub proof fn lemma_vacating_filters<T>(s: Seq<Option<T>>, t: Seq<Option<T>>, keep: spec_fn(T) -> bool)
    requires
        t.len() == s.len(),
        forall|h: int|
            0 <= h < s.len() ==> #[trigger] t[h] == (match s[h] {
                Some(v) => if keep(v) {
                    Some(v)
                } else {
                    None
                },
                None => None,
            }),
    ensures
        occupied_values(t) == occupied_values(s).filter(keep),
    decreases s.len(),
{
    reveal(Seq::filter);
    if s.len() == 0 {
        assert(occupied_values(t) =~= Seq::<T>::empty());
        assert(occupied_values(s) =~= Seq::<T>::empty());
    } else {
        let s0 = s.drop_last();
        let t0 = t.drop_last();
        assert forall|h: int| 0 <= h < s0.len() implies #[trigger] t0[h] == (match s0[h] {
            Some(v) => if keep(v) {
                Some(v)
            } else {
                None
            },
            None => None,
        }) by {
            assert(t0[h] == t[h]);
            assert(s0[h] == s[h]);
        }
        lemma_vacating_filters(s0, t0, keep);
        assert(t.last() == t[s.len() - 1]);
        match s.last() {
            Some(v) => {
                let vs = occupied_values(s0);
                assert(occupied_values(s) == vs + seq![v]);
                assert((vs + seq![v]).drop_last() =~= vs);
                assert((vs + seq![v]).last() == v);
                if keep(v) {
                    assert(occupied_values(t) =~= occupied_values(s).filter(keep));
                } else {
                    assert(occupied_values(t) =~= occupied_values(s).filter(keep));
                }
            },
            None => {},
        }
    }
}

/// No slot is vacant exactly where the first vacant handle is the length.
pub proof fn lemma_vacant_count<T>(s: Seq<Option<T>>)
    ensures
        0 <= vacant_count(s) <= s.len(),
        vacant_count(s) == 0 <==> first_vacant(s) == s.len(),
    decreases s.len(),
{
    lemma_first_vacant(s);
    if s.len() == 0 {
        assert(occupied_values(s) =~= Seq::<T>::empty());
    } else {
        let t = s.drop_last();
        lemma_vacant_count(t);
        lemma_first_vacant(t);
        if s.last() is Some {
            if first_vacant(t) == t.len() {
                assert forall|j: int| 0 <= j < s.len() implies (#[trigger] s[j]) is Some by {
                    if j < t.len() {
                        assert(t[j] is Some);
                    }
                }
                lemma_first_vacant_is(s, s.len() as int);
            } else {
                let f = first_vacant(t);
                assert forall|j: int| 0 <= j < f implies (#[trigger] s[j]) is Some by {
                    assert(t[j] is Some);
                }
                assert(s[f] == t[f]);
                lemma_first_vacant_is(s, f);
            }
        } else {
            assert(s[s.len() - 1] is None);
        }
    }
}

/// Insertion occupies the first vacant handle with the value, leaves every
/// other handle as it was, and adds one to the number of occupied slots.
pub proof fn lemma_inserted<T>(s: Seq<Option<T>>, v: T)
    ensures
        inserted(s, v).len() == (if first_vacant(s) < s.len() {
            s.len()
        } else {
            s.len() + 1
        }),
        inserted(s, v)[first_vacant(s)] == Some(v),
        forall|h: int| 0 <= h < s.len() && h != first_vacant(s) ==> inserted(s, v)[h] == s[h],
        occupied_count(inserted(s, v)) == occupied_count(s) + 1,
{
    lemma_first_vacant(s);
    let f = first_vacant(s);
    let r = inserted(s, v);
    lemma_values_split(r, f);
    lemma_values_single(r[f]);
    assert(r.take(f) =~= s.take(f));
    if f < s.len() {
        lemma_values_split(s, f);
        lemma_values_single(s[f]);
        assert(r.skip(f + 1) =~= s.skip(f + 1));
    } else {
        assert(s.take(f) =~= s);
        assert(r.skip(f + 1) =~= Seq::<Option<T>>::empty());
        lemma_values_all_vacant(r.skip(f + 1));
    }
}

/// Removal empties the handle and leaves every other handle as it was. The
/// number of occupied slots goes down by one if the handle was valid, and
/// stays otherwise; a second removal of the same handle changes nothing and
/// finds nothing.
pub proof fn lemma_removed<T>(s: Seq<Option<T>>, h: int)
    ensures
        removed(s, h).len() == s.len(),
        slot_at(removed(s, h), h) is None,
        forall|j: int| 0 <= j < s.len() && j != h ==> removed(s, h)[j] == s[j],
        occupied_count(removed(s, h)) + (if is_occupied(s, h) {
            1nat
        } else {
            0nat
        }) == occupied_count(s),
        !is_occupied(s, h) ==> removed(s, h) == s,
        removed(removed(s, h), h) == removed(s, h),
{
    let r = removed(s, h);
    if 0 <= h < s.len() {
        lemma_values_split(s, h);
        lemma_values_split(r, h);
        lemma_values_single(s[h]);
        lemma_values_single(r[h]);
        assert(r.take(h) =~= s.take(h));
        assert(r.skip(h + 1) =~= s.skip(h + 1));
        if s[h] is None {
            assert(r =~= s);
        }
        assert(removed(r, h) =~= r);
    }
}

/// A handle that was removed is the next to be given out, unless a smaller
/// one is vacant.
pub proof fn lemma_removed_is_reused<T>(s: Seq<Option<T>>, h: int)
    requires
        0 <= h < s.len(),
    ensures
        first_vacant(removed(s, h)) == (if h < first_vacant(s) {
            h
        } else {
            first_vacant(s)
        }),
{
    lemma_first_vacant(s);
    let r = removed(s, h);
    let f = first_vacant(s);
    if h < f {
        assert forall|j: int| 0 <= j < h implies (#[trigger] r[j]) is Some by {
            assert(s[j] is Some);
        }
        lemma_first_vacant_is(r, h);
    } else {
        assert forall|j: int| 0 <= j < f implies (#[trigger] r[j]) is Some by {
            assert(s[j] is Some);
        }
        lemma_first_vacant_is(r, f);
    }
}

} // verus!
