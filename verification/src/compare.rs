//! Equality and order of containers.
//!
//! Both go by the logical content alone: the values of the occupied slots, in
//! ascending order of their handles. Where the vacant slots lie, and how many
//! there are, makes no difference.

use vstd::prelude::*;
use vstd::std_specs::cmp::PartialEqSpec;
use vstd::std_specs::cmp::PartialEqSpecImpl;
use vstd::std_specs::cmp::PartialOrdSpec;
use vstd::std_specs::cmp::PartialOrdSpecImpl;
use vstd::std_specs::cmp::OrdSpec;
use core::cmp::Ordering;
use crate::iter::Iter;
use crate::option_vec::OptionVec;
use crate::slots::occupied_values;

verus! {

/// `a` and `b` have the same length and are equal item by item, as the items'
/// own `==` has it.
pub open spec fn values_eq<A: PartialEq<B>, B>(a: Seq<A>, b: Seq<B>) -> bool {
    &&& a.len() == b.len()
    &&& forall|i: int| 0 <= i < a.len() ==> #[trigger] a[i].eq_spec(&b[i])
}

/// The lexicographic order of `a` and `b`, as the items' own comparison has
/// it: the first pair of items that is not equal decides; where there is
/// none, the shorter sequence is the lesser.
pub open spec fn lexicographic<T: PartialOrd>(a: Seq<T>, b: Seq<T>) -> Option<Ordering>
    decreases a.len(),
{
    if a.len() == 0 {
        if b.len() == 0 {
            Some(Ordering::Equal)
        } else {
            Some(Ordering::Less)
        }
    } else if b.len() == 0 {
        Some(Ordering::Greater)
    } else {
        match a.first().partial_cmp_spec(&b.first()) {
            Some(Ordering::Equal) => lexicographic(a.drop_first(), b.drop_first()),
            other => other,
        }
    }
}

/// The lexicographic order of `a` and `b`, as the items' own total order has
/// it: the first pair of items that is not equal decides; where there is
/// none, the shorter sequence is the lesser.
pub open spec fn lexicographic_total<T: Ord>(a: Seq<T>, b: Seq<T>) -> Ordering
    decreases a.len(),
{
    if a.len() == 0 {
        if b.len() == 0 {
            Ordering::Equal
        } else {
            Ordering::Less
        }
    } else if b.len() == 0 {
        Ordering::Greater
    } else {
        match a.first().cmp_spec(&b.first()) {
            Ordering::Equal => lexicographic_total(a.drop_first(), b.drop_first()),
            other => other,
        }
    }
}

/// Two sequences that both have a first item are equal exactly if their first
/// items are and their rests are.
pub proof fn lemma_values_eq_step<A: PartialEq<B>, B>(a: Seq<A>, b: Seq<B>)
    requires
        a.len() > 0,
        b.len() > 0,
    ensures
        values_eq(a, b) <==> a.first().eq_spec(&b.first()) && values_eq(
            a.drop_first(),
            b.drop_first(),
        ),
{
    let ta = a.drop_first();
    let tb = b.drop_first();
    if values_eq(a, b) {
        assert(a[0].eq_spec(&b[0]));
        assert forall|i: int| 0 <= i < ta.len() implies #[trigger] ta[i].eq_spec(&tb[i]) by {
            assert(a[i + 1].eq_spec(&b[i + 1]));
        }
    }
    if a.first().eq_spec(&b.first()) && values_eq(ta, tb) {
        assert forall|i: int| 0 <= i < a.len() implies #[trigger] a[i].eq_spec(&b[i]) by {
            if i > 0 {
                assert(ta[i - 1].eq_spec(&tb[i - 1]));
            }
        }
    }
}

/// Containers with the same logical content cannot be told apart by `==` or
/// by the order, whatever their vacant slots.
pub proof fn lemma_compared_by_content<T: PartialOrd>(
    a: OptionVec<T>,
    b: OptionVec<T>,
    c: OptionVec<T>,
)
    requires
        occupied_values(a@) == occupied_values(b@),
    ensures
        PartialEqSpec::eq_spec(&a, &c) == PartialEqSpec::eq_spec(&b, &c),
        PartialEqSpec::eq_spec(&c, &a) == PartialEqSpec::eq_spec(&c, &b),
        PartialOrdSpec::partial_cmp_spec(&a, &c) == PartialOrdSpec::partial_cmp_spec(&b, &c),
        PartialOrdSpec::partial_cmp_spec(&c, &a) == PartialOrdSpec::partial_cmp_spec(&c, &b),
{
}

/// Whether the values of the occupied slots of `a` and of `b` are equal, one
/// after the other.
pub fn slots_eq<A: PartialEq<B>, B>(a: &[Option<A>], b: &[Option<B>]) -> (r: bool)
    ensures
        A::obeys_eq_spec() ==> r == values_eq(occupied_values(a@), occupied_values(b@)),
{
    let mut x = Iter::new(a);
    let mut y = Iter::new(b);
    loop
        invariant
            A::obeys_eq_spec() ==> values_eq(occupied_values(a@), occupied_values(b@))
                == values_eq(occupied_values(x@), occupied_values(y@)),
        decreases x@.len(),
    {
        let ghost xs = occupied_values(x@);
        let ghost ys = occupied_values(y@);
        match x.next() {
            None => {
                return y.next().is_none();
            },
            Some(u) => {
                match y.next() {
                    None => {
                        return false;
                    },
                    Some(w) => {
                        proof {
                            lemma_values_eq_step(xs, ys);
                        }
                        if !u.eq(w) {
                            return false;
                        }
                    },
                }
            },
        }
    }
}

/// The lexicographic order of the values of the occupied slots of `a` and of
/// `b`.
pub fn slots_partial_cmp<T: PartialOrd>(a: &[Option<T>], b: &[Option<T>]) -> (r: Option<Ordering>)
    ensures
        T::obeys_partial_cmp_spec() ==> r == lexicographic(
            occupied_values(a@),
            occupied_values(b@),
        ),
{
    let mut x = Iter::new(a);
    let mut y = Iter::new(b);
    loop
        invariant
            T::obeys_partial_cmp_spec() ==> lexicographic(occupied_values(a@), occupied_values(b@))
                == lexicographic(occupied_values(x@), occupied_values(y@)),
        decreases x@.len(),
    {
        match x.next() {
            None => {
                if y.next().is_none() {
                    return Some(Ordering::Equal);
                }
                return Some(Ordering::Less);
            },
            Some(u) => {
                match y.next() {
                    None => {
                        return Some(Ordering::Greater);
                    },
                    Some(w) => {
                        match u.partial_cmp(w) {
                            Some(Ordering::Equal) => {},
                            decided => {
                                return decided;
                            },
                        }
                    },
                }
            },
        }
    }
}

/// The lexicographic order of the values of the occupied slots of `a` and of
/// `b`, by the items' total order.
pub fn slots_cmp<T: Ord>(a: &[Option<T>], b: &[Option<T>]) -> (r: Ordering)
    ensures
        T::obeys_cmp_spec() ==> r == lexicographic_total(occupied_values(a@), occupied_values(b@)),
{
    let mut x = Iter::new(a);
    let mut y = Iter::new(b);
    loop
        invariant
            T::obeys_cmp_spec() ==> lexicographic_total(occupied_values(a@), occupied_values(b@))
                == lexicographic_total(occupied_values(x@), occupied_values(y@)),
        decreases x@.len(),
    {
        match x.next() {
            None => {
                if y.next().is_none() {
                    return Ordering::Equal;
                }
                return Ordering::Less;
            },
            Some(u) => {
                match y.next() {
                    None => {
                        return Ordering::Greater;
                    },
                    Some(w) => {
                        match u.cmp(w) {
                            Ordering::Equal => {},
                            decided => {
                                return decided;
                            },
                        }
                    },
                }
            },
        }
    }
}

impl<T: Ord> OptionVec<T> {
    /// The order of two containers: the lexicographic order of their logical
    /// contents, by the values' total order.
    pub fn cmp(&self, other: &OptionVec<T>) -> (r: Ordering)
        ensures
            T::obeys_cmp_spec() ==> r == lexicographic_total(
                occupied_values(self@),
                occupied_values(other@),
            ),
    {
        slots_cmp(self.inner().as_slice(), other.inner().as_slice())
    }
}

impl<A: PartialEq<B>, B> PartialEq<OptionVec<B>> for OptionVec<A> {
    fn eq(&self, other: &OptionVec<B>) -> (r: bool) {
        slots_eq(self.inner().as_slice(), other.inner().as_slice())
    }
}

impl<A: PartialEq<B>, B> PartialEqSpecImpl<OptionVec<B>> for OptionVec<A> {
    open spec fn obeys_eq_spec() -> bool {
        A::obeys_eq_spec()
    }

    open spec fn eq_spec(&self, other: &OptionVec<B>) -> bool {
        values_eq(occupied_values(self@), occupied_values(other@))
    }
}

impl<A: PartialEq<B>, B> PartialEq<Vec<Option<B>>> for OptionVec<A> {
    fn eq(&self, other: &Vec<Option<B>>) -> (r: bool) {
        slots_eq(self.inner().as_slice(), other.as_slice())
    }
}

impl<A: PartialEq<B>, B> PartialEqSpecImpl<Vec<Option<B>>> for OptionVec<A> {
    open spec fn obeys_eq_spec() -> bool {
        A::obeys_eq_spec()
    }

    open spec fn eq_spec(&self, other: &Vec<Option<B>>) -> bool {
        values_eq(occupied_values(self@), occupied_values(other@))
    }
}

impl<'b, A: PartialEq<B>, B> PartialEq<&'b [Option<B>]> for OptionVec<A> {
    fn eq(&self, other: &&'b [Option<B>]) -> (r: bool) {
        slots_eq(self.inner().as_slice(), *other)
    }
}

impl<'b, A: PartialEq<B>, B> PartialEqSpecImpl<&'b [Option<B>]> for OptionVec<A> {
    open spec fn obeys_eq_spec() -> bool {
        A::obeys_eq_spec()
    }

    open spec fn eq_spec(&self, other: &&'b [Option<B>]) -> bool {
        values_eq(occupied_values(self@), occupied_values(other@))
    }
}

impl<T: Eq> Eq for OptionVec<T> {

}

impl<T: PartialOrd> PartialOrd for OptionVec<T> {
    fn partial_cmp(&self, other: &OptionVec<T>) -> (r: Option<Ordering>) {
        slots_partial_cmp(self.inner().as_slice(), other.inner().as_slice())
    }
}

impl<T: PartialOrd> PartialOrdSpecImpl for OptionVec<T> {
    open spec fn obeys_partial_cmp_spec() -> bool {
        T::obeys_partial_cmp_spec()
    }

    open spec fn partial_cmp_spec(&self, other: &OptionVec<T>) -> Option<Ordering> {
        lexicographic(occupied_values(self@), occupied_values(other@))
    }
}

} // verus!
