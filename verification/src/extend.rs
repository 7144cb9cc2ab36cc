//! Bulk insertion, and construction from a sequence of values.

use vstd::prelude::*;
use crate::option_vec::OptionVec;
use crate::slots::{
    first_vacant, inserted, lemma_first_vacant, lemma_first_vacant_is, lemma_inserted,
    lemma_vacant_count, occupied_count, occupied_values, shortfall, vacant_count,
};

verus! {

/// `s` after the insertion of each of `values`, one after the other.
pub open spec fn extended<T>(s: Seq<Option<T>>, values: Seq<T>) -> Seq<Option<T>>
    decreases values.len(),
{
    if values.len() == 0 {
        s
    } else {
        inserted(extended(s, values.drop_last()), values.last())
    }
}

/// The slots that hold `values`, one each and in their order, with no vacant
/// slot among them.
pub open spec fn all_occupied<T>(values: Seq<T>) -> Seq<Option<T>> {
    Seq::new(values.len(), |h: int| Some(values[h]))
}

impl<T> OptionVec<T> {
    /// Inserts each of `values`, in their order. Each takes the smallest
    /// handle that is vacant when its turn comes, so vacant slots are filled
    /// before the container grows.
    pub fn extend(&mut self, values: Vec<T>)
        ensures
            final(self)@ == extended(old(self)@, values@),
    {
        self.reserve(values.len());
        let ghost all = values@;
        for v in it: values
            invariant
                it.seq() == all,
                self@ == extended(old(self)@, all.take(it.index())),
        {
            proof {
                assert(all.take(it.index() + 1).drop_last() =~= all.take(it.index()));
            }
            self.insert(v);
        }
        proof {
            assert(all.take(all.len() as int) =~= all);
        }
    }

    /// The container that holds `values` at the handles `0..values.len()`, in
    /// their order.
    pub fn from_iter(values: Vec<T>) -> (r: OptionVec<T>)
        ensures
            r@ == all_occupied(values@),
    {
        let mut slots: Vec<Option<T>> = Vec::new();
        let ghost all = values@;
        for v in it: values
            invariant
                it.seq() == all,
                slots@ == all_occupied(all.take(it.index())),
        {
            slots.push(Some(v));
            proof {
                assert(slots@ =~= all_occupied(all.take(it.index() + 1)));
            }
        }
        proof {
            assert(all.take(all.len() as int) =~= all);
        }
        OptionVec::from(slots)
    }
}

/// To insert values into a container without slots is to give them the
/// handles `0..values.len()`.
pub proof fn lemma_extended_from_empty<T>(values: Seq<T>)
    ensures
        extended(Seq::<Option<T>>::empty(), values) == all_occupied(values),
    decreases values.len(),
{
    if values.len() == 0 {
        assert(all_occupied(values) =~= Seq::<Option<T>>::empty());
    } else {
        let front = values.drop_last();
        lemma_extended_from_empty(front);
        let s = all_occupied(front);
        lemma_first_vacant_is(s, s.len() as int);
        assert(inserted(s, values.last()) =~= all_occupied(values));
    }
}

/// Bulk insertion appends to the logical content only where no slot is
/// vacant; in every case it adds as many values as it was given.
pub proof fn lemma_extended_values<T>(s: Seq<Option<T>>, values: Seq<T>)
    ensures
        occupied_values(extended(s, values)).len() == occupied_values(s).len() + values.len(),
        first_vacant(s) == s.len() ==> extended(s, values) == s + all_occupied(values),
    decreases values.len(),
{
    if values.len() == 0 {
        assert(s + all_occupied(values) =~= s);
    } else {
        let front = values.drop_last();
        lemma_extended_values(s, front);
        let e = extended(s, front);
        lemma_inserted(e, values.last());
        if first_vacant(s) == s.len() {
            lemma_first_vacant(s);
            let t = s + all_occupied(front);
            assert forall|j: int| 0 <= j < t.len() implies (#[trigger] t[j]) is Some by {
                if j < s.len() {
                    assert(s[j] is Some);
                }
            }
            lemma_first_vacant_is(t, t.len() as int);
            assert(inserted(t, values.last()) =~= s + all_occupied(values));
        }
    }
}

/// To take `values`, the slots grow by the shortfall and by no more: the
/// vacant slots are filled first, and only what they do not cover is added.
pub proof fn lemma_extended_grows_by_shortfall<T>(s: Seq<Option<T>>, values: Seq<T>)
    ensures
        extended(s, values).len() == s.len() + shortfall(s, values.len() as int),
        vacant_count(extended(s, values)) == (if vacant_count(s) < values.len() {
            0
        } else {
            vacant_count(s) - values.len()
        }),
    decreases values.len(),
{
    lemma_vacant_count(s);
    if values.len() == 0 {
        assert(extended(s, values) == s);
    } else {
        let front = values.drop_last();
        let e = extended(s, front);
        let r = inserted(e, values.last());
        assert(extended(s, values) == r);
        lemma_extended_grows_by_shortfall(s, front);
        lemma_extended_values(s, front);
        lemma_vacant_count(e);
        lemma_first_vacant(e);
        lemma_inserted(e, values.last());
        assert(front.len() == values.len() - 1);
        assert(occupied_count(e) == occupied_count(s) + front.len());
        assert(occupied_count(r) == occupied_count(e) + 1);
        if vacant_count(e) > 0 {
            assert(first_vacant(e) < e.len());
            assert(r.len() == e.len());
        } else {
            assert(first_vacant(e) == e.len());
            assert(r.len() == e.len() + 1);
        }
    }
}

} // verus!
