//! Traversals of a container: by reference, by mutable reference and by value.
//!
//! Each yields the values of the occupied slots and passes over the vacant
//! ones, from either end. The view of a traversal is the sequence of slots it
//! has not yet passed.

use vstd::prelude::*;
use vstd::std_specs::iter::IteratorSpecImpl;
use vstd::std_specs::iter::DoubleEndedIteratorSpecImpl;
use crate::slots::{
    end_occupied, first_occupied, lemma_end_occupied_is, lemma_first_occupied_is,
    lemma_first_occupied_value, lemma_last_occupied_value, occupied_count, occupied_values,
};

verus! {

/// A traversal that yields references to the values of a container.
#[derive(Debug)]
pub struct Iter<'a, T> {
    slots: &'a [Option<T>],
}

impl<'a, T> View for Iter<'a, T> {
    type V = Seq<Option<T>>;

    closed spec fn view(&self) -> Seq<Option<T>> {
        self.slots@
    }
}

impl<'a, T> Iter<'a, T> {
    /// A traversal of all of `slots`.
    pub(crate) fn new(slots: &'a [Option<T>]) -> (it: Iter<'a, T>)
        ensures
            it@ == slots@,
    {
        Iter { slots }
    }
}

impl<'a, T> Clone for Iter<'a, T> {
    /// A second traversal of the slots that are left; each then goes its own
    /// way.
    fn clone(&self) -> (it: Iter<'a, T>)
        ensures
            it@ == self@,
    {
        Iter { slots: self.slots }
    }
}

impl<'a, T> Iterator for Iter<'a, T> {
    type Item = &'a T;

    /// The value of the smallest occupied handle that is left. The traversal
    /// goes on above that handle; where nothing is occupied, nothing is left.
    fn next(&mut self) -> (r: Option<&'a T>)
        ensures
            match r {
                Some(v) => {
                    &&& first_occupied(old(self)@) < old(self)@.len()
                    &&& Some(*v) == old(self)@[first_occupied(old(self)@)]
                    &&& final(self)@ == old(self)@.skip(first_occupied(old(self)@) + 1)
                    &&& *v == occupied_values(old(self)@).first()
                    &&& occupied_values(final(self)@) == occupied_values(old(self)@).drop_first()
                },
                None => occupied_count(old(self)@) == 0 && final(self)@.len() == 0,
            },
            r is Some <==> occupied_count(old(self)@) > 0,
    {
        let ghost all = self.slots@;
        let ghost mut passed: int = 0;
        proof {
            lemma_first_occupied_value(all);
            assert(all.skip(0) =~= all);
        }
        while self.slots.len() > 0
            invariant
                all == old(self)@,
                0 <= passed <= all.len(),
                self.slots@ == all.skip(passed),
                forall|h: int| 0 <= h < passed ==> (#[trigger] all[h]) is None,
            decreases self.slots@.len(),
        {
            let (head, tail) = self.slots.split_at(1);
            self.slots = tail;
            proof {
                assert(head@[0] == all[passed]);
                assert(tail@ =~= all.skip(passed + 1));
            }
            match &head[0] {
                Some(v) => {
                    proof {
                        lemma_first_occupied_is(all, passed);
                        lemma_first_occupied_value(all);
                    }
                    return Some(v);
                },
                None => {},
            }
            proof {
                passed = passed + 1;
            }
        }
        proof {
            lemma_first_occupied_is(all, passed);
        }
        None
    }

    /// No bound from below, since the slots that are left may all be vacant;
    /// from above, their number.
    fn size_hint(&self) -> (r: (usize, Option<usize>))
        ensures
            r == (0usize, Some(self@.len() as usize)),
            self@.len() <= usize::MAX,
    {
        (0, Some(self.slots.len()))
    }
}

impl<'a, T> DoubleEndedIterator for Iter<'a, T> {
    /// The value of the largest occupied handle that is left. The traversal
    /// goes on below that handle; where nothing is occupied, nothing is left.
    fn next_back(&mut self) -> (r: Option<&'a T>)
        ensures
            match r {
                Some(v) => {
                    &&& end_occupied(old(self)@) > 0
                    &&& Some(*v) == old(self)@[end_occupied(old(self)@) - 1]
                    &&& final(self)@ == old(self)@.take(end_occupied(old(self)@) - 1)
                    &&& *v == occupied_values(old(self)@).last()
                    &&& occupied_values(final(self)@) == occupied_values(old(self)@).drop_last()
                },
                None => occupied_count(old(self)@) == 0 && final(self)@.len() == 0,
            },
            r is Some <==> occupied_count(old(self)@) > 0,
    {
        let ghost all = self.slots@;
        proof {
            lemma_last_occupied_value(all);
            assert(all.take(all.len() as int) =~= all);
        }
        while self.slots.len() > 0
            invariant
                all == old(self)@,
                self.slots@.len() <= all.len(),
                self.slots@ == all.take(self.slots@.len() as int),
                forall|h: int| self.slots@.len() <= h < all.len() ==> (#[trigger] all[h]) is None,
            decreases self.slots@.len(),
        {
            let n = self.slots.len();
            let (head, tail) = self.slots.split_at(n - 1);
            self.slots = head;
            proof {
                assert(tail@[0] == all[n - 1]);
                assert(head@ =~= all.take(n - 1));
            }
            match &tail[0] {
                Some(v) => {
                    proof {
                        lemma_end_occupied_is(all, n as int);
                        lemma_last_occupied_value(all);
                    }
                    return Some(v);
                },
                None => {},
            }
        }
        proof {
            lemma_end_occupied_is(all, 0);
        }
        None
    }
}

impl<'a, T> IteratorSpecImpl for Iter<'a, T> {
    open spec fn obeys_prophetic_iter_laws(&self) -> bool {
        true
    }

    open spec fn remaining(&self) -> Seq<Self::Item> {
        occupied_values(self@).as_ref()
    }

    open spec fn will_return_none(&self) -> bool {
        true
    }

    open spec fn decrease(&self) -> Option<nat> {
        Some(self@.len())
    }

    open spec fn initial_value_relation(&self, init: &Self) -> bool {
        init@ == self@
    }

    open spec fn peek(&self, index: int) -> Option<Self::Item> {
        if 0 <= index < occupied_values(self@).len() {
            Some(&occupied_values(self@)[index])
        } else {
            None
        }
    }
}

impl<'a, T> DoubleEndedIteratorSpecImpl for Iter<'a, T> {
    open spec fn peek_back(&self, index: int) -> Option<Self::Item> {
        let values = occupied_values(self@);
        if 0 <= index < values.len() {
            Some(&values[values.len() - 1 - index])
        } else {
            None
        }
    }
}

/// A traversal that takes the values out of a container.
#[derive(Debug)]
pub struct IntoIter<T> {
    slots: Vec<Option<T>>,
    front: usize,
}

impl<T> View for IntoIter<T> {
    type V = Seq<Option<T>>;

    closed spec fn view(&self) -> Seq<Option<T>> {
        if self.front <= self.slots@.len() {
            self.slots@.skip(self.front as int)
        } else {
            Seq::empty()
        }
    }
}

impl<T> IntoIter<T> {
    /// A traversal of all of `slots`.
    pub(crate) fn new(slots: Vec<Option<T>>) -> (it: IntoIter<T>)
        ensures
            it@ == slots@,
    {
        assert(slots@.skip(0) =~= slots@);
        IntoIter { slots, front: 0 }
    }
}

impl<T> Iterator for IntoIter<T> {
    type Item = T;

    /// The value of the smallest occupied handle that is left. The traversal
    /// goes on above that handle; where nothing is occupied, nothing is left.
    fn next(&mut self) -> (r: Option<T>)
        ensures
            match r {
                Some(v) => {
                    &&& first_occupied(old(self)@) < old(self)@.len()
                    &&& Some(v) == old(self)@[first_occupied(old(self)@)]
                    &&& final(self)@ == old(self)@.skip(first_occupied(old(self)@) + 1)
                    &&& v == occupied_values(old(self)@).first()
                    &&& occupied_values(final(self)@) == occupied_values(old(self)@).drop_first()
                },
                None => occupied_count(old(self)@) == 0 && final(self)@.len() == 0,
            },
            r is Some <==> occupied_count(old(self)@) > 0,
    {
        let ghost all = self@;
        let ghost start = self.front;
        if self.front > self.slots.len() {
            proof {
                lemma_first_occupied_value(all);
            }
            return None;
        }
        while self.front < self.slots.len()
            invariant
                all == old(self)@,
                start <= self.front <= self.slots@.len(),
                all.len() == self.slots@.len() - start,
                self@ == all.skip(self.front - start),
                forall|h: int| 0 <= h < self.front - start ==> (#[trigger] all[h]) is None,
            decreases self.slots@.len() - self.front,
        {
            let ghost before = self.slots@;
            let i = self.front;
            let slot = self.slots[i].take();
            self.front = i + 1;
            proof {
                let rest = before.skip(i as int);
                assert(rest == all.skip(i - start));
                assert(rest[0] == before[i as int]);
                assert(slot == all[i - start]);
                assert forall|k: int| 0 <= k < self@.len() implies self@[k] == all.skip(
                    i + 1 - start,
                )[k] by {
                    assert(rest[k + 1] == before[i + 1 + k]);
                }
                assert(self@ =~= all.skip(i + 1 - start));
            }
            if slot.is_some() {
                proof {
                    lemma_first_occupied_is(all, i - start);
                    lemma_first_occupied_value(all);
                }
                return slot;
            }
        }
        proof {
            lemma_first_occupied_is(all, self.front - start);
            lemma_first_occupied_value(all);
        }
        None
    }

    /// No bound from below, since the slots that are left may all be vacant;
    /// from above, their number.
    fn size_hint(&self) -> (r: (usize, Option<usize>))
        ensures
            r == (0usize, Some(self@.len() as usize)),
            self@.len() <= usize::MAX,
    {
        if self.front <= self.slots.len() {
            (0, Some(self.slots.len() - self.front))
        } else {
            (0, Some(0))
        }
    }
}

impl<T> DoubleEndedIterator for IntoIter<T> {
    /// The value of the largest occupied handle that is left. The traversal
    /// goes on below that handle; where nothing is occupied, nothing is left.
    fn next_back(&mut self) -> (r: Option<T>)
        ensures
            match r {
                Some(v) => {
                    &&& end_occupied(old(self)@) > 0
                    &&& Some(v) == old(self)@[end_occupied(old(self)@) - 1]
                    &&& final(self)@ == old(self)@.take(end_occupied(old(self)@) - 1)
                    &&& v == occupied_values(old(self)@).last()
                    &&& occupied_values(final(self)@) == occupied_values(old(self)@).drop_last()
                },
                None => occupied_count(old(self)@) == 0 && final(self)@.len() == 0,
            },
            r is Some <==> occupied_count(old(self)@) > 0,
    {
        let ghost all = self@;
        proof {
            assert(all.take(all.len() as int) =~= all);
            if self.front > self.slots@.len() {
                lemma_last_occupied_value(all);
            }
        }
        while self.slots.len() > self.front
            invariant
                all == old(self)@,
                self.front == old(self).front,
                self.front <= self.slots@.len() || self@.len() == 0,
                self@.len() <= all.len(),
                self@ == all.take(self@.len() as int),
                forall|h: int| self@.len() <= h < all.len() ==> (#[trigger] all[h]) is None,
            decreases self.slots@.len(),
        {
            let ghost n = self@.len();
            let ghost before = self@;
            let slot = self.slots.pop();
            proof {
                assert(self@ =~= all.take(n - 1));
                assert(slot == Some(before[n - 1]));
            }
            match slot {
                Some(Some(v)) => {
                    proof {
                        lemma_end_occupied_is(all, n as int);
                        lemma_last_occupied_value(all);
                    }
                    return Some(v);
                },
                _ => {},
            }
        }
        proof {
            lemma_end_occupied_is(all, 0);
            lemma_last_occupied_value(all);
        }
        None
    }
}

impl<T> IteratorSpecImpl for IntoIter<T> {
    open spec fn obeys_prophetic_iter_laws(&self) -> bool {
        true
    }

    open spec fn remaining(&self) -> Seq<Self::Item> {
        occupied_values(self@)
    }

    open spec fn will_return_none(&self) -> bool {
        true
    }

    open spec fn decrease(&self) -> Option<nat> {
        Some(self@.len())
    }

    open spec fn initial_value_relation(&self, init: &Self) -> bool {
        init@ == self@
    }

    open spec fn peek(&self, index: int) -> Option<Self::Item> {
        if 0 <= index < occupied_values(self@).len() {
            Some(occupied_values(self@)[index])
        } else {
            None
        }
    }
}

impl<T> DoubleEndedIteratorSpecImpl for IntoIter<T> {
    open spec fn peek_back(&self, index: int) -> Option<Self::Item> {
        let values = occupied_values(self@);
        if 0 <= index < values.len() {
            Some(values[values.len() - 1 - index])
        } else {
            None
        }
    }
}

/// A traversal that yields mutable references to the values of a container.
///
/// `slots` holds the slots that the traversal has not yet passed. What the
/// borrowed slots hold when the traversal and the references it gave out are
/// done with, `final(slots)`, is what the container then holds in their place.
#[derive(Debug)]
pub struct IterMut<'a, T> {
    pub slots: &'a mut [Option<T>],
}

impl<'a, T> View for IterMut<'a, T> {
    type V = Seq<Option<T>>;

    open spec fn view(&self) -> Seq<Option<T>> {
        self.slots@
    }
}

impl<'a, T> IterMut<'a, T> {
    /// A traversal of all of `slots`.
    pub(crate) fn new(slots: &'a mut [Option<T>]) -> (it: IterMut<'a, T>)
        ensures
            it@ == old(slots)@,
            final(slots)@ == final(it.slots)@,
    {
        IterMut { slots }
    }
}

impl<'a, T> Iterator for IterMut<'a, T> {
    type Item = &'a mut T;

    /// A reference to the value of the smallest occupied handle that is left.
    /// The traversal goes on above that handle; where nothing is occupied,
    /// nothing is left. In the end the slots up to that handle hold what they
    /// held, but for the value, which is as the caller leaves it.
    fn next(&mut self) -> (r: Option<&'a mut T>)
        ensures
            match r {
                Some(v) => {
                    &&& first_occupied(old(self)@) < old(self)@.len()
                    &&& Some(*v) == old(self)@[first_occupied(old(self)@)]
                    &&& final(self)@ == old(self)@.skip(first_occupied(old(self)@) + 1)
                    &&& *v == occupied_values(old(self)@).first()
                    &&& occupied_values(final(self)@) == occupied_values(old(self)@).drop_first()
                    &&& final(old(self).slots)@ == old(self)@.take(first_occupied(old(self)@)).push(
                        Some(*final(v)),
                    ) + final(final(self).slots)@
                },
                None => {
                    &&& occupied_count(old(self)@) == 0
                    &&& final(self)@.len() == 0
                    &&& final(old(self).slots)@ == old(self)@
                },
            },
            r is Some <==> occupied_count(old(self)@) > 0,
    {
        let ghost all = self.slots@;
        let ghost mut passed: int = 0;
        proof {
            assert(all.skip(0) =~= all);
            assert(all.take(0) + final(self.slots)@ =~= final(self.slots)@);
        }
        loop
            invariant
                all == old(self)@,
                0 <= passed <= all.len(),
                self.slots@ == all.skip(passed),
                forall|h: int| 0 <= h < passed ==> (#[trigger] all[h]) is None,
                final(old(self).slots)@ == all.take(passed) + final(self.slots)@,
            decreases self.slots@.len(),
        {
            let mut rest: &'a mut [Option<T>] = &mut [];
            core::mem::swap(&mut self.slots, &mut rest);
            if rest.len() == 0 {
                proof {
                    lemma_first_occupied_is(all, passed);
                    lemma_first_occupied_value(all);
                    assert(all.take(passed) =~= all);
                }
                return None;
            }
            let (head, tail) = rest.split_at_mut(1);
            self.slots = tail;
            match head.first_mut() {
                Some(slot) => {
                    match slot.as_mut() {
                        Some(v) => {
                            proof {
                                lemma_first_occupied_is(all, passed);
                                lemma_first_occupied_value(all);
                                assert(first_occupied(all) == passed);
                                assert(Some(*v) == all[passed]);
                                assert(self.slots@ =~= all.skip(passed + 1));
                                assert(*v == occupied_values(all).first());
                                assert(occupied_values(self.slots@) == occupied_values(
                                    all,
                                ).drop_first());
                                assert(final(old(self).slots)@ =~= all.take(passed).push(
                                    Some(*final(v)),
                                ) + final(self.slots)@);
                            }
                            return Some(v);
                        },
                        None => {},
                    }
                },
                None => {},
            }
            proof {
                assert(all.take(passed + 1) =~= all.take(passed).push(None));
                passed = passed + 1;
            }
        }
    }

    /// No bound from below, since the slots that are left may all be vacant;
    /// from above, their number.
    fn size_hint(&self) -> (r: (usize, Option<usize>))
        ensures
            r == (0usize, Some(self@.len() as usize)),
            self@.len() <= usize::MAX,
    {
        (0, Some(self.slots.len()))
    }
}

impl<'a, T> DoubleEndedIterator for IterMut<'a, T> {
    /// A reference to the value of the largest occupied handle that is left.
    /// The traversal goes on below that handle; where nothing is occupied,
    /// nothing is left. In the end the slots from that handle on hold what
    /// they held, but for the value, which is as the caller leaves it.
    fn next_back(&mut self) -> (r: Option<&'a mut T>)
        ensures
            match r {
                Some(v) => {
                    &&& end_occupied(old(self)@) > 0
                    &&& Some(*v) == old(self)@[end_occupied(old(self)@) - 1]
                    &&& final(self)@ == old(self)@.take(end_occupied(old(self)@) - 1)
                    &&& *v == occupied_values(old(self)@).last()
                    &&& occupied_values(final(self)@) == occupied_values(old(self)@).drop_last()
                    &&& final(old(self).slots)@ == final(final(self).slots)@.push(Some(*final(v)))
                        + old(self)@.skip(end_occupied(old(self)@))
                },
                None => {
                    &&& occupied_count(old(self)@) == 0
                    &&& final(self)@.len() == 0
                    &&& final(old(self).slots)@ == old(self)@
                },
            },
            r is Some <==> occupied_count(old(self)@) > 0,
    {
        let ghost all = self.slots@;
        proof {
            assert(all.take(all.len() as int) =~= all);
            assert(final(self.slots)@ + all.skip(all.len() as int) =~= final(self.slots)@);
        }
        loop
            invariant
                all == old(self)@,
                self.slots@.len() <= all.len(),
                self.slots@ == all.take(self.slots@.len() as int),
                forall|h: int| self.slots@.len() <= h < all.len() ==> (#[trigger] all[h]) is None,
                final(old(self).slots)@ == final(self.slots)@ + all.skip(self.slots@.len() as int),
            decreases self.slots@.len(),
        {
            let mut rest: &'a mut [Option<T>] = &mut [];
            core::mem::swap(&mut self.slots, &mut rest);
            let n = rest.len();
            if n == 0 {
                proof {
                    lemma_end_occupied_is(all, 0);
                    lemma_last_occupied_value(all);
                    assert(all.skip(0) =~= all);
                }
                return None;
            }
            let (head, tail) = rest.split_at_mut(n - 1);
            self.slots = head;
            match tail.first_mut() {
                Some(slot) => {
                    match slot.as_mut() {
                        Some(v) => {
                            proof {
                                lemma_end_occupied_is(all, n as int);
                                lemma_last_occupied_value(all);
                                assert(end_occupied(all) == n);
                                assert(Some(*v) == all[n - 1]);
                                assert(self.slots@ =~= all.take(n - 1));
                                assert(*v == occupied_values(all).last());
                                assert(occupied_values(self.slots@) == occupied_values(
                                    all,
                                ).drop_last());
                                assert(final(old(self).slots)@ =~= final(self.slots)@.push(
                                    Some(*final(v)),
                                ) + all.skip(n as int));
                            }
                            return Some(v);
                        },
                        None => {},
                    }
                },
                None => {},
            }
            proof {
                assert(all.skip(n - 1) =~= seq![None::<T>] + all.skip(n as int));
            }
        }
    }
}

impl<'a, T> IteratorSpecImpl for IterMut<'a, T> {
    /// The references that are still to come are not known before the
    /// traversal has run: the contract of `next` states what it yields.
    open spec fn obeys_prophetic_iter_laws(&self) -> bool {
        false
    }

    open spec fn remaining(&self) -> Seq<Self::Item> {
        Seq::empty()
    }

    open spec fn will_return_none(&self) -> bool {
        true
    }

    open spec fn decrease(&self) -> Option<nat> {
        Some(self@.len())
    }

    open spec fn initial_value_relation(&self, init: &Self) -> bool {
        init@ == self@
    }

    open spec fn peek(&self, index: int) -> Option<Self::Item> {
        None
    }
}

impl<'a, T> DoubleEndedIteratorSpecImpl for IterMut<'a, T> {
    open spec fn peek_back(&self, index: int) -> Option<Self::Item> {
        None
    }
}

} // verus!
